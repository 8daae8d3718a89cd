//! The settings of the clipboard manager and their built-in values.

use vstd::prelude::*;

verus! {

/// The settings read at start-up.
#[derive(Debug)]
pub struct Config {
    pub max_clips: usize,
    pub hotkey: String,
    pub picker_command: String,
    pub database_path: String,
    pub enable_file_clips: bool,
    pub enable_encryption: bool,
    pub sync_enabled: bool,
    pub sync_gist_id: Option<String>,
    pub sync_token: Option<String>,
}

/// How many clips are kept where nothing else is asked for.
pub const DEFAULT_MAX_CLIPS: usize = 100;

/// The key combination, the picker and the place of the store where nothing
/// else is asked for.
pub const DEFAULT_HOTKEY: &'static str = "ctrl+shift+v";

pub const DEFAULT_PICKER: &'static str = "fzf";

pub const DEFAULT_DATABASE_PATH: &'static str = "~/.clipq/clipboard.db";

impl Config {
    /// The built-in settings.
    pub open spec fn builtin(self) -> bool {
        &&& self.max_clips == DEFAULT_MAX_CLIPS
        &&& self.hotkey@ == DEFAULT_HOTKEY@
        &&& self.picker_command@ == DEFAULT_PICKER@
        &&& self.database_path@ == DEFAULT_DATABASE_PATH@
        &&& self.enable_file_clips
        &&& !self.enable_encryption
        &&& !self.sync_enabled
        &&& self.sync_gist_id is None
        &&& self.sync_token is None
    }

    /// The settings to run with, given what the settings file holds if there
    /// is one: the settings found, all of them, or the built-in ones where
    /// there is no such file.
    pub fn load(found: Option<Config>) -> (c: Config)
        ensures
            match found {
                Some(f) => c == f,
                None => c.builtin(),
            },
    {
        match found {
            Some(f) => f,
            None => Config::default(),
        }
    }
}

impl Default for Config {
    fn default() -> (c: Config)
        ensures
            c.builtin(),
    {
        Config {
            max_clips: DEFAULT_MAX_CLIPS,
            hotkey: DEFAULT_HOTKEY.to_owned(),
            picker_command: DEFAULT_PICKER.to_owned(),
            database_path: DEFAULT_DATABASE_PATH.to_owned(),
            enable_file_clips: true,
            enable_encryption: false,
            sync_enabled: false,
            sync_gist_id: None,
            sync_token: None,
        }
    }
}

impl Clone for Config {
    fn clone(&self) -> (c: Config)
        ensures
            c == *self,
    {
        Config {
            max_clips: self.max_clips,
            hotkey: self.hotkey.clone(),
            picker_command: self.picker_command.clone(),
            database_path: self.database_path.clone(),
            enable_file_clips: self.enable_file_clips,
            enable_encryption: self.enable_encryption,
            sync_enabled: self.sync_enabled,
            sync_gist_id: match &self.sync_gist_id {
                Some(s) => Some(s.clone()),
                None => None,
            },
            sync_token: match &self.sync_token {
                Some(s) => Some(s.clone()),
                None => None,
            },
        }
    }
}

} // verus!
