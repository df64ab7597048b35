//! The access key that signs requests.

use crate::error::ToolError;
use vstd::prelude::*;

verus! {

/// An access key: its id and its secret.
#[derive(Debug)]
pub struct Credentials {
    pub access_key_id: String,
    pub access_key_secret: String,
}

impl Credentials {
    /// The access key of two environment variables, each of which may be unset.
    /// Both are required; the id is missed first.
    pub fn from_vars(
        access_key_id: Option<String>,
        access_key_secret: Option<String>,
    ) -> (credentials: Result<Credentials, ToolError>)
        ensures
            match credentials {
                Ok(c) => access_key_id == Some(c.access_key_id) && access_key_secret == Some(
                    c.access_key_secret,
                ),
                Err(ToolError::MissingAccessKeyId) => access_key_id is None,
                Err(ToolError::MissingAccessKeySecret) => access_key_id is Some
                    && access_key_secret is None,
                Err(_) => false,
            },
    {
        match access_key_id {
            None => Err(ToolError::MissingAccessKeyId),
            Some(id) => match access_key_secret {
                None => Err(ToolError::MissingAccessKeySecret),
                Some(secret) => Ok(
                    Credentials { access_key_id: id, access_key_secret: secret },
                ),
            },
        }
    }
}

} // verus!
