//! The application settings file that selects the data directory.
//!
//! The file is read before the store is constructed.  The application
//! edge parses it (a parse failure or a missing file yields the
//! default) and persists the state after every change; the rules for
//! the legacy field and the fallback path live here.

use vstd::prelude::*;

use crate::models::clone_opt_string;

verus! {

/// The settings stored in the settings file: an optional custom data
/// directory, and a legacy field that older installations used for
/// the same purpose.
#[derive(Debug, PartialEq)]
pub struct AppSettings {
    pub data_path: Option<String>,
    pub database_path: Option<String>,
}

impl Clone for AppSettings {
    fn clone(&self) -> (r: Self)
        ensures
            r == *self,
    {
        AppSettings {
            data_path: clone_opt_string(&self.data_path),
            database_path: clone_opt_string(&self.database_path),
        }
    }
}

impl Default for AppSettings {
    /// The default settings: no custom path configured.
    fn default() -> (r: Self)
        ensures
            r.data_path is None,
            r.database_path is None,
    {
        AppSettings { data_path: None, database_path: None }
    }
}

/// The in-memory image of the settings file.
#[derive(Debug)]
pub struct SettingsFile {
    /// Where the file lives on disk.
    pub path: String,
    /// The current settings.
    pub settings: AppSettings,
}

impl SettingsFile {
    /// Builds the settings state from what was read off disk (`None`
    /// when the file was missing or unreadable), migrating the legacy
    /// field: a `database_path` with no `data_path` becomes the
    /// `data_path` and is cleared.  The second component says whether
    /// that migration changed the settings, so the caller knows to
    /// persist them.
    pub fn new(path: String, loaded: Option<AppSettings>) -> (r: (SettingsFile, bool))
        ensures
            r.0.path == path,
            ({
                let base = match loaded {
                    Some(s) => s,
                    None => AppSettings { data_path: None, database_path: None },
                };
                if base.data_path is None && base.database_path is Some {
                    &&& r.0.settings.data_path == base.database_path
                    &&& r.0.settings.database_path is None
                    &&& r.1 == true
                } else {
                    &&& r.0.settings == base
                    &&& r.1 == false
                }
            }),
    {
        let mut settings = match loaded {
            Some(s) => s,
            None => AppSettings { data_path: None, database_path: None },
        };
        let migrated = settings.data_path.is_none() && settings.database_path.is_some();
        if migrated {
            settings.data_path = settings.database_path;
            settings.database_path = None;
        }
        (SettingsFile { path, settings }, migrated)
    }

    /// Replaces the settings wholesale; the caller persists the new
    /// state to the file.
    pub fn save(&mut self, settings: &AppSettings) -> (r: Result<(), String>)
        ensures
            r is Ok,
            final(self).path == old(self).path,
            final(self).settings == *settings,
    {
        self.settings = settings.clone();
        Ok(())
    }

    /// The configured data directory, or the given default when none
    /// is configured.
    pub fn get_data_path(&self, default_dir: &str) -> (r: String)
        ensures
            r@ == match self.settings.data_path {
                Some(p) => p@,
                None => default_dir@,
            },
    {
        match &self.settings.data_path {
            Some(p) => p.clone(),
            None => default_dir.to_owned(),
        }
    }

    /// Sets the data directory (or clears it), always clearing the
    /// legacy field; the caller persists the new state.
    pub fn set_data_path(&mut self, path: Option<String>) -> (r: Result<(), String>)
        ensures
            r is Ok,
            final(self).path == old(self).path,
            final(self).settings.data_path == path,
            final(self).settings.database_path is None,
    {
        self.settings.data_path = path;
        self.settings.database_path = None;
        Ok(())
    }

    /// The data directory under its historical name.
    pub fn get_database_path(&self, default_dir: &str) -> (r: String)
        ensures
            r@ == match self.settings.data_path {
                Some(p) => p@,
                None => default_dir@,
            },
    {
        self.get_data_path(default_dir)
    }

    /// Sets the data directory under its historical name.
    pub fn set_database_path(&mut self, path: Option<String>) -> (r: Result<(), String>)
        ensures
            r is Ok,
            final(self).path == old(self).path,
            final(self).settings.data_path == path,
            final(self).settings.database_path is None,
    {
        self.set_data_path(path)
    }
}

} // verus!
