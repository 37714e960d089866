//! Runtime configuration: whether the browser runs headless, and an
//! optional explicit path to its executable. Reading and writing the
//! on-disk form is the surrounding binary's business; the keyed access
//! used by the command line lives here.

use vstd::prelude::*;
use crate::strutil::str_eq;

verus! {

/// What a bad call of `set` or `get` reports: a key that does not exist,
/// or a value that does not parse for its key.
#[derive(Debug, Clone, PartialEq, Eq, Structural)]
pub enum ConfigError {
    UnknownKey,
    InvalidValue,
}

pub struct Config {
    pub headless: bool,
    pub browser_path: Option<String>,
}

impl Default for Config {
    /// Headless, with the browser discovered rather than given.
    fn default() -> (c: Config)
        ensures
            c.headless,
            c.browser_path is None,
    {
        Config { headless: true, browser_path: None }
    }
}

impl Config {
    /// Set one configuration key from its textual form. `headless` takes
    /// exactly `true` or `false`; `browser_path` takes any path, the empty
    /// string clearing it; any other key is unknown. A failed call leaves
    /// the configuration as it was.
    pub fn set(&mut self, key: &str, value: &str) -> (r: Result<(), ConfigError>)
        ensures
            if key@ == "headless"@ {
                if value@ == "true"@ {
                    r is Ok && final(self).headless && final(self).browser_path == old(
                        self,
                    ).browser_path
                } else if value@ == "false"@ {
                    r is Ok && !final(self).headless && final(self).browser_path == old(
                        self,
                    ).browser_path
                } else {
                    r == Result::<(), ConfigError>::Err(ConfigError::InvalidValue) && *final(self)
                        == *old(self)
                }
            } else if key@ == "browser_path"@ {
                &&& r is Ok
                &&& final(self).headless == old(self).headless
                &&& (if value@.len() == 0 {
                    final(self).browser_path is None
                } else {
                    final(self).browser_path matches Some(p) && p@ == value@
                })
            } else {
                r == Result::<(), ConfigError>::Err(ConfigError::UnknownKey) && *final(self)
                    == *old(self)
            },
    {
        if str_eq(key, "headless") {
            if str_eq(value, "true") {
                self.headless = true;
                Ok(())
            } else if str_eq(value, "false") {
                self.headless = false;
                Ok(())
            } else {
                Err(ConfigError::InvalidValue)
            }
        } else if str_eq(key, "browser_path") {
            if value.is_empty() {
                self.browser_path = None;
            } else {
                self.browser_path = Some(String::from_str(value));
            }
            Ok(())
        } else {
            Err(ConfigError::UnknownKey)
        }
    }

    /// Read one configuration key in its textual form: `headless` as
    /// `true` or `false`, `browser_path` as the path or the empty string;
    /// any other key is unknown.
    pub fn get(&self, key: &str) -> (r: Result<String, ConfigError>)
        ensures
            if key@ == "headless"@ {
                r matches Ok(s) && s@ == (if self.headless {
                    "true"@
                } else {
                    "false"@
                })
            } else if key@ == "browser_path"@ {
                r matches Ok(s) && s@ == (match self.browser_path {
                    Some(p) => p@,
                    None => Seq::<char>::empty(),
                })
            } else {
                r == Result::<String, ConfigError>::Err(ConfigError::UnknownKey)
            },
    {
        if str_eq(key, "headless") {
            if self.headless {
                Ok(String::from_str("true"))
            } else {
                Ok(String::from_str("false"))
            }
        } else if str_eq(key, "browser_path") {
            match &self.browser_path {
                Some(p) => Ok(p.clone()),
                None => Ok(String::new()),
            }
        } else {
            Err(ConfigError::UnknownKey)
        }
    }
}

} // verus!
