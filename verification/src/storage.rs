//! The blob store that holds the scripts: how a client is set up from the
//! configuration, and what it decides from the store's answers. Talking to
//! the store is the caller's part.

use crate::config::Minio;
use crate::decimal::{decimal, decimal_nat, push_decimal, push_signed_decimal};
use vstd::prelude::*;
use vstd::string::*;

verus! {

/// A failure of the blob store, or an answer that the client cannot use.
#[derive(Debug, PartialEq, Eq)]
pub struct Error {
    pub message: String,
}

/// Where and as whom the blob store is reached.
#[derive(Debug, PartialEq, Eq)]
pub struct Storage {
    /// What the store is called in logs.
    pub name: String,
    /// The region, empty for a store that has none.
    pub region: String,
    /// The address of the store.
    pub endpoint: String,
    /// The key that identifies the user.
    pub access_key: String,
    /// The user's secret.
    pub secret_key: String,
    /// The bucket that holds the scripts.
    pub bucket: String,
    /// Whether the store can be asked where a bucket lives.
    pub location_supported: bool,
}

/// A client of the blob store.
#[derive(Debug, PartialEq, Eq)]
pub struct Client {
    pub storage: Storage,
}

/// The HTTP status with which the store says that an object exists or was
/// written.
pub const HTTP_OK: u16 = 200;

/// The HTTP status with which the store says that an object does not exist.
pub const HTTP_NOT_FOUND: u16 = 404;

impl Client {
    /// A client for the store that `minio_config` names. Scripts go to the
    /// bucket `rust-s3`.
    pub fn connect(minio_config: &Minio) -> (client: Client)
        ensures
            client.storage.name@ == "minio"@,
            client.storage.region@ == Seq::<char>::empty(),
            client.storage.endpoint@ == minio_config.host@,
            client.storage.access_key@ == minio_config.username@,
            client.storage.secret_key@ == minio_config.password@,
            client.storage.bucket@ == "rust-s3"@,
            !client.storage.location_supported,
    {
        Client {
            storage: Storage {
                name: String::from_str("minio"),
                region: String::new(),
                endpoint: minio_config.host.clone(),
                access_key: minio_config.username.clone(),
                secret_key: minio_config.password.clone(),
                bucket: String::from_str("rust-s3"),
                location_supported: false,
            },
        }
    }
}

/// The name under which an upload is stored, given the status with which
/// the store answered when asked for an object of the wanted name.
pub open spec fn stored_name_of(code: u16, now: int, object_name: Seq<char>) -> Option<Seq<char>> {
    if code == HTTP_OK {
        Some(decimal(now) + seq!['_'] + object_name)
    } else if code == HTTP_NOT_FOUND {
        Some(object_name)
    } else {
        None
    }
}

/// Picks the name under which an upload is stored. If no object of the
/// wanted name exists, that name is taken. If one exists, the time `now` is
/// put in front, so that the existing object stays. Any other answer of the
/// store is an error.
pub fn stored_name(code: u16, now: i64, object_name: &str) -> (name: Result<String, Error>)
    ensures
        match name {
            Ok(name) => stored_name_of(code, now as int, object_name@) == Some(name@),
            Err(error) => stored_name_of(code, now as int, object_name@).is_none()
                && error.message@ == "Could not verify if file exists already"@,
        },
{
    if code == HTTP_OK {
        let mut name = String::new();
        push_signed_decimal(&mut name, now);
        proof {
            reveal_strlit("_");
            assert("_"@ =~= seq!['_']);
        }
        name.append("_");
        name.append(object_name);
        assert(name@ =~= decimal(now as int) + seq!['_'] + object_name@);
        Ok(name)
    } else if code == HTTP_NOT_FOUND {
        Ok(object_name.to_owned())
    } else {
        Err(Error { message: String::from_str("Could not verify if file exists already") })
    }
}

/// What an upload under `name` comes to, given the status with which the
/// store answered it: the name, if the store took the object.
pub fn upload_result(code: u16, name: String) -> (stored: Result<String, Error>)
    ensures
        match stored {
            Ok(stored) => code == HTTP_OK && stored@ == name@,
            Err(error) => code != HTTP_OK && error.message@
                == "Error while uploading file, http code = "@ + decimal_nat(code as nat),
        },
{
    if code == HTTP_OK {
        Ok(name)
    } else {
        let mut message = String::from_str("Error while uploading file, http code = ");
        push_decimal(&mut message, code as u64);
        Err(Error { message })
    }
}

} // verus!
