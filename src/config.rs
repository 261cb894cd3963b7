//! The installation's configuration: its device id and where the database lives.
use vstd::prelude::*;

use crate::ids::Uuid;
use crate::models::opt_id;

verus! {

/// The stored configuration, as text.
#[derive(Clone, Debug)]
pub struct JotlogConfig {
    pub dev_id: String,
    pub db_file: String,
}

/// Why a configuration cannot be used.
#[derive(Clone, Copy, Debug, PartialEq, Eq, Structural)]
pub enum ConfigError {
    /// The device id is not a UUID.
    MalformedDeviceId,
}

/// The bytes of the UUID that a text spells, if it spells one.
pub uninterp spec fn parsed_uuid(s: Seq<char>) -> Option<Seq<u8>>;

/// Relies on uuid::Uuid::parse_str: whether the text is a UUID in one of the
/// simple, hyphenated or urn forms, and which; the answer depends on the text alone.
#[verifier::external_body]
fn parse_uuid(s: &str) -> (r: Option<Uuid>)
    ensures
        opt_id(r) == parsed_uuid(s@),
{
    match uuid::Uuid::parse_str(s) {
        Ok(u) => Some(Uuid { bytes: *u.as_bytes() }),
        Err(_) => None,
    }
}

/// The device id that the configuration names.
pub fn get_device_id(config: &JotlogConfig) -> (r: Result<Uuid, ConfigError>)
    ensures
        match parsed_uuid(config.dev_id@) {
            Some(b) => r matches Ok(u) && u@ == b,
            None => r == Err::<Uuid, ConfigError>(ConfigError::MalformedDeviceId),
        },
{
    match parse_uuid(config.dev_id.as_str()) {
        Some(u) => Ok(u),
        None => Err(ConfigError::MalformedDeviceId),
    }
}

} // verus!
