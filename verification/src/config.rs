//! The configuration that the process is started with.

use vstd::prelude::*;
use vstd::string::*;

verus! {

/// How to reach the job store.
#[derive(PartialEq, Eq)]
pub struct Database {
    pub username: String,
    pub password: String,
    pub cluster_url: String,
}

impl Clone for Database {
    fn clone(&self) -> (copy: Database)
        ensures
            copy == *self,
    {
        Database {
            username: self.username.clone(),
            password: self.password.clone(),
            cluster_url: self.cluster_url.clone(),
        }
    }
}

/// How to reach the blob store that holds the scripts.
#[derive(PartialEq, Eq)]
pub struct Minio {
    pub username: String,
    pub password: String,
    pub host: String,
}

impl Clone for Minio {
    fn clone(&self) -> (copy: Minio)
        ensures
            copy == *self,
    {
        Minio {
            username: self.username.clone(),
            password: self.password.clone(),
            host: self.host.clone(),
        }
    }
}

/// The whole configuration. A part that is absent falls back to a local
/// default where there is one.
#[derive(PartialEq, Eq)]
pub struct Config {
    pub database: Option<Database>,
    pub minio: Option<Minio>,
    /// The identity under which this instance sends its heartbeats. Every
    /// instance of a fleet needs one of its own: leadership is decided by
    /// comparing identities.
    pub server_name: Option<String>,
}

impl Clone for Config {
    fn clone(&self) -> (copy: Config)
        ensures
            copy == *self,
    {
        let database = match &self.database {
            Some(database) => Some(database.clone()),
            None => None,
        };
        let minio = match &self.minio {
            Some(minio) => Some(minio.clone()),
            None => None,
        };
        let server_name = match &self.server_name {
            Some(server_name) => Some(server_name.clone()),
            None => None,
        };
        Config { database, minio, server_name }
    }
}

/// A text as `{:?}` shows it: in double quotes, with what cannot be shown
/// as it is written as an escape.
pub uninterp spec fn quoted(text: Seq<char>) -> Seq<char>;

/// Formats `text` with `{:?}`, std's `Debug` for `str`. Claimed: the
/// result is a function of the text alone.
#[verifier::external_body]
fn quote(text: &str) -> (shown: String)
    ensures
        shown@ == quoted(text@),
{
    format!("{:?}", text)
}

/// How a store's settings are shown in logs: every field but the
/// password, which is masked.
pub open spec fn masked_database(database: Database) -> Seq<char> {
    "Database { username: "@ + quoted(database.username@) + ", password: \"*****\", cluster_url: "@
        + quoted(database.cluster_url@) + " }"@
}

/// How a blob store's settings are shown in logs: every field but the
/// password, which is masked.
pub open spec fn masked_minio(minio: Minio) -> Seq<char> {
    "Minio { username: "@ + quoted(minio.username@) + ", password: \"*****\", host: "@ + quoted(
        minio.host@,
    ) + " }"@
}

impl Database {
    /// The settings as they may be logged: the password does not enter
    /// the text.
    pub fn masked(&self) -> (shown: String)
        ensures
            shown@ == masked_database(*self),
    {
        let mut shown = String::from_str("Database { username: ");
        shown.append(quote(self.username.as_str()).as_str());
        shown.append(", password: \"*****\", cluster_url: ");
        shown.append(quote(self.cluster_url.as_str()).as_str());
        shown.append(" }");
        shown
    }
}

impl Minio {
    /// The settings as they may be logged: the password does not enter
    /// the text.
    pub fn masked(&self) -> (shown: String)
        ensures
            shown@ == masked_minio(*self),
    {
        let mut shown = String::from_str("Minio { username: ");
        shown.append(quote(self.username.as_str()).as_str());
        shown.append(", password: \"*****\", host: ");
        shown.append(quote(self.host.as_str()).as_str());
        shown.append(" }");
        shown
    }
}

} // verus!
