//! The configuration file's contents and how credentials are resolved:
//! environment variables take precedence over the file.
use crate::error::Error;
use vstd::prelude::*;

verus! {

/// The configuration: the API token, and the CardDAV credentials.
#[derive(Debug)]
pub struct Config {
    pub core: CoreConfig,
    pub contacts: ContactsConfig,
}

/// The `[core]` section.
#[derive(Debug)]
pub struct CoreConfig {
    pub api_token: Option<String>,
}

/// The `[contacts]` section. CardDAV needs an app password: API tokens do
/// not work there.
#[derive(Debug)]
pub struct ContactsConfig {
    pub username: Option<String>,
    pub app_password: Option<String>,
}

impl Default for CoreConfig {
    fn default() -> (c: Self)
        ensures
            c.api_token is None,
    {
        CoreConfig { api_token: None }
    }
}

impl Default for ContactsConfig {
    fn default() -> (c: Self)
        ensures
            c.username is None,
            c.app_password is None,
    {
        ContactsConfig { username: None, app_password: None }
    }
}

impl Default for Config {
    fn default() -> (c: Self)
        ensures
            c.core.api_token is None,
            c.contacts.username is None,
            c.contacts.app_password is None,
    {
        Config { core: CoreConfig::default(), contacts: ContactsConfig::default() }
    }
}

impl Config {
    /// Stores the API token.
    pub fn set_token(&mut self, token: String)
        ensures
            final(self).core.api_token == Some(token),
            final(self).contacts == old(self).contacts,
    {
        self.core.api_token = Some(token);
    }

    /// The API token: the value of `FASTMAIL_API_TOKEN` when it is set
    /// (`from_env`), else the one in the file; not authenticated without
    /// either.
    pub fn resolve_token(&self, from_env: Option<String>) -> (r: Result<String, Error>)
        ensures
            match from_env {
                Some(t) => r == Ok::<String, Error>(t),
                None => match self.core.api_token {
                    Some(t) => r matches Ok(s) && s@ == t@,
                    None => r matches Err(Error::NotAuthenticated),
                },
            },
    {
        match from_env {
            Some(t) => Ok(t),
            None => match &self.core.api_token {
                Some(t) => Ok(t.clone()),
                None => Err(Error::NotAuthenticated),
            },
        }
    }

    /// The CardDAV user name: `FASTMAIL_USERNAME` when set (`from_env`),
    /// else the one in `[contacts]`.
    pub fn resolve_username(&self, from_env: Option<String>) -> (r: Result<String, Error>)
        ensures
            match from_env {
                Some(t) => r == Ok::<String, Error>(t),
                None => match self.contacts.username {
                    Some(t) => r matches Ok(s) && s@ == t@,
                    None => r matches Err(Error::Config(m)) && m@
                        == "Username not set in [contacts] config."@,
                },
            },
    {
        match from_env {
            Some(t) => Ok(t),
            None => match &self.contacts.username {
                Some(t) => Ok(t.clone()),
                None => Err(Error::Config("Username not set in [contacts] config.".to_owned())),
            },
        }
    }

    /// The CardDAV app password: `FASTMAIL_APP_PASSWORD` when set
    /// (`from_env`), else the one in `[contacts]`.
    pub fn resolve_app_password(&self, from_env: Option<String>) -> (r: Result<String, Error>)
        ensures
            match from_env {
                Some(t) => r == Ok::<String, Error>(t),
                None => match self.contacts.app_password {
                    Some(t) => r matches Ok(s) && s@ == t@,
                    None => r matches Err(Error::Config(m)) && m@
                        == "App password not set in [contacts] config."@,
                },
            },
    {
        match from_env {
            Some(t) => Ok(t),
            None => match &self.contacts.app_password {
                Some(t) => Ok(t.clone()),
                None => Err(
                    Error::Config("App password not set in [contacts] config.".to_owned()),
                ),
            },
        }
    }
}

} // verus!
