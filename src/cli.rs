//! Connection settings and their validation.

use vstd::prelude::*;
use crate::strings::{starts_with, str_starts_with};

verus! {

/// The command-line settings of the service: the server, the account and
/// the port the query API listens on. Each of the first three holds the
/// value itself (a file that an argument names has been read already).
#[derive(Debug, Clone)]
pub struct Cli {
    pub caldav_server: String,
    pub username: String,
    pub password: String,
    pub port: u16,
}

/// Validated credentials for the server.
#[derive(Debug, Clone)]
pub struct Credentials {
    pub server_url: String,
    pub username: String,
    pub password: String,
}

/// Why credentials were refused.
#[derive(Debug, Clone, PartialEq, Eq)]
pub enum CredentialsError {
    EmptyServerUrl,
    EmptyUsername,
    EmptyPassword,
    UnsupportedScheme,
}

/// The sentence for each credentials error.
pub open spec fn credentials_error_text(e: CredentialsError) -> Seq<char> {
    match e {
        CredentialsError::EmptyServerUrl => "CalDAV server URL cannot be empty"@,
        CredentialsError::EmptyUsername => "Username cannot be empty"@,
        CredentialsError::EmptyPassword => "Password cannot be empty"@,
        CredentialsError::UnsupportedScheme => "CalDAV server URL must start with http:// or https://"@,
    }
}

impl CredentialsError {
    /// A sentence that says what is wrong.
    pub fn message(&self) -> (r: String)
        ensures
            r@ == credentials_error_text(*self),
    {
        proof {
            reveal_strlit("CalDAV server URL cannot be empty");
            reveal_strlit("Username cannot be empty");
            reveal_strlit("Password cannot be empty");
            reveal_strlit("CalDAV server URL must start with http:// or https://");
        }
        match self {
            CredentialsError::EmptyServerUrl => String::from_str("CalDAV server URL cannot be empty"),
            CredentialsError::EmptyUsername => String::from_str("Username cannot be empty"),
            CredentialsError::EmptyPassword => String::from_str("Password cannot be empty"),
            CredentialsError::UnsupportedScheme => String::from_str(
                "CalDAV server URL must start with http:// or https://",
            ),
        }
    }
}

pub open spec fn http_prefix() -> Seq<char> {
    seq!['h', 't', 't', 'p', ':', '/', '/']
}

pub open spec fn https_prefix() -> Seq<char> {
    seq!['h', 't', 't', 'p', 's', ':', '/', '/']
}

/// The first fault of the credentials, checked in order: an empty URL,
/// username or password, then a URL that is neither `http://` nor
/// `https://`.
pub open spec fn credentials_fault(url: Seq<char>, user: Seq<char>, password: Seq<char>) -> Option<
    CredentialsError,
> {
    if url.len() == 0 {
        Some(CredentialsError::EmptyServerUrl)
    } else if user.len() == 0 {
        Some(CredentialsError::EmptyUsername)
    } else if password.len() == 0 {
        Some(CredentialsError::EmptyPassword)
    } else if !starts_with(url, http_prefix()) && !starts_with(url, https_prefix()) {
        Some(CredentialsError::UnsupportedScheme)
    } else {
        None
    }
}

/// Check that the credentials are non-empty and the URL is http or https.
pub fn validate_credentials(server_url: &str, username: &str, password: &str) -> (r: Result<(), CredentialsError>)
    ensures
        match credentials_fault(server_url@, username@, password@) {
            Some(e) => r == Err::<(), CredentialsError>(e),
            None => r is Ok,
        },
{
    proof {
        reveal_strlit("http://");
        reveal_strlit("https://");
    }
    assert("http://"@ =~= http_prefix());
    assert("https://"@ =~= https_prefix());
    if server_url.unicode_len() == 0 {
        return Err(CredentialsError::EmptyServerUrl);
    }
    if username.unicode_len() == 0 {
        return Err(CredentialsError::EmptyUsername);
    }
    if password.unicode_len() == 0 {
        return Err(CredentialsError::EmptyPassword);
    }
    if !str_starts_with(server_url, "http://") && !str_starts_with(server_url, "https://") {
        return Err(CredentialsError::UnsupportedScheme);
    }
    Ok(())
}

impl Cli {
    /// The credentials the settings give, once validated.
    pub fn load_credentials(&self) -> (r: Result<Credentials, CredentialsError>)
        ensures
            match credentials_fault(self.caldav_server@, self.username@, self.password@) {
                Some(e) => r matches Err(x) && x == e,
                None => r matches Ok(c) && c.server_url == self.caldav_server && c.username
                    == self.username && c.password == self.password,
            },
    {
        match validate_credentials(self.caldav_server.as_str(), self.username.as_str(), self.password.as_str()) {
            Ok(()) => Ok(
                Credentials {
                    server_url: self.caldav_server.clone(),
                    username: self.username.clone(),
                    password: self.password.clone(),
                },
            ),
            Err(e) => Err(e),
        }
    }
}

} // verus!
