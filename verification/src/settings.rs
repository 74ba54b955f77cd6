//! The user's settings: the global shortcut that shows the panel.
use vstd::prelude::*;

verus! {

broadcast use vstd::string::group_string_axioms;

/// The shortcut used until the user picks another.
pub open spec fn default_shortcut() -> Seq<char> {
    "ctrl+alt+v"@
}

/// The settings that are kept between runs.
#[derive(Debug)]
pub struct AppSettings {
    pub shortcut: String,
}

impl Default for AppSettings {
    fn default() -> (r: Self)
        ensures
            r.shortcut@ == default_shortcut(),
    {
        AppSettings { shortcut: "ctrl+alt+v".to_string() }
    }
}

impl AppSettings {
    /// A field-by-field copy.
    pub fn copy(&self) -> (r: Self)
        ensures
            r.shortcut@ == self.shortcut@,
    {
        AppSettings { shortcut: self.shortcut.clone() }
    }
}

/// Holds the settings of the running application.
#[derive(Debug)]
pub struct SettingsManager {
    settings: AppSettings,
}

impl SettingsManager {
    /// The shortcut in force.
    pub closed spec fn shortcut(&self) -> Seq<char> {
        self.settings.shortcut@
    }

    /// Starts from the settings read from storage, or from the defaults
    /// when none could be read.
    pub fn new(loaded: Option<AppSettings>) -> (r: Self)
        ensures
            r.shortcut() == match loaded {
                Some(s) => s.shortcut@,
                None => default_shortcut(),
            },
    {
        let settings = match loaded {
            Some(s) => s,
            None => AppSettings::default(),
        };
        SettingsManager { settings }
    }

    /// A copy of the settings in force.
    pub fn get(&self) -> (r: AppSettings)
        ensures
            r.shortcut@ == self.shortcut(),
    {
        self.settings.copy()
    }

    /// Makes `shortcut` the shortcut in force.
    pub fn set_shortcut(&mut self, shortcut: &str) -> (r: Result<(), String>)
        ensures
            r is Ok,
            final(self).shortcut() == shortcut@,
    {
        self.settings.shortcut = shortcut.to_string();
        Ok(())
    }
}

} // verus!
