use vstd::prelude::*;
use crate::store::str_eq;

verus! {

/// Settings of the store itself.
#[derive(Debug, Clone, PartialEq, Eq, PartialOrd, Ord, Default)]
pub struct Core {
    /// Transport URL of the root peer's store.
    pub root_git_url: String,
}

/// Settings of the ecosystem extensions.
#[derive(Debug, Clone, Copy, PartialEq, Eq, PartialOrd, Ord, Default)]
pub struct Extensions {
    /// Whether the npm extension is used.
    pub js_enabled: bool,
}

/// The user's settings.
#[derive(Debug, Clone, PartialEq, Eq, PartialOrd, Ord, Default)]
pub struct Config {
    pub core: Core,
    pub extensions: Extensions,
}

/// Errors of reading or writing a setting by name.
#[derive(Debug, Clone, Copy, PartialEq, Eq, Structural)]
pub enum ConfigError {
    /// No setting has that name.
    UnknownField,
    /// The value does not suit the setting.
    InvalidValue,
}

/// Name of the root peer's transport URL setting.
pub open spec fn root_git_url_field() -> Seq<char> {
    "core.root-git-url"@
}

/// Name of the npm extension switch.
pub open spec fn js_enabled_field() -> Seq<char> {
    "extensions.js.enabled"@
}

impl Config {
    /// Sets the named setting from its text form; a switch takes `true` or
    /// `false`. Fails, leaving the settings as they were, where the name is
    /// unknown or the value does not suit the setting.
    pub fn set(&mut self, name: &str, value: &str) -> (r: Result<(), ConfigError>)
        ensures
            name@ == root_git_url_field() ==> r is Ok && final(self).core.root_git_url@ == value@
                && final(self).extensions == old(self).extensions,
            name@ != root_git_url_field() && name@ == js_enabled_field() ==> {
                if value@ == "true"@ || value@ == "false"@ {
                    r is Ok && final(self).extensions.js_enabled == (value@ == "true"@)
                        && final(self).core == old(self).core
                } else {
                    r == Err::<(), ConfigError>(ConfigError::InvalidValue) && *final(self) == *old(self)
                }
            },
            name@ != root_git_url_field() && name@ != js_enabled_field()
                ==> r == Err::<(), ConfigError>(ConfigError::UnknownField) && *final(self) == *old(self),
    {
        if str_eq(name, "core.root-git-url") {
            self.core.root_git_url = value.to_owned();
            Ok(())
        } else if str_eq(name, "extensions.js.enabled") {
            if str_eq(value, "true") {
                self.extensions.js_enabled = true;
                Ok(())
            } else if str_eq(value, "false") {
                self.extensions.js_enabled = false;
                Ok(())
            } else {
                Err(ConfigError::InvalidValue)
            }
        } else {
            Err(ConfigError::UnknownField)
        }
    }

    /// The text form of the named setting.
    pub fn get(&self, name: &str) -> (r: Result<String, ConfigError>)
        ensures
            name@ == root_git_url_field() ==> r is Ok && r->Ok_0@ == self.core.root_git_url@,
            name@ != root_git_url_field() && name@ == js_enabled_field() ==> r is Ok
                && r->Ok_0@ == (if self.extensions.js_enabled { "true"@ } else { "false"@ }),
            name@ != root_git_url_field() && name@ != js_enabled_field()
                ==> r == Err::<String, ConfigError>(ConfigError::UnknownField),
    {
        if str_eq(name, "core.root-git-url") {
            Ok(self.core.root_git_url.clone())
        } else if str_eq(name, "extensions.js.enabled") {
            if self.extensions.js_enabled {
                Ok("true".to_owned())
            } else {
                Ok("false".to_owned())
            }
        } else {
            Err(ConfigError::UnknownField)
        }
    }
}

} // verus!
