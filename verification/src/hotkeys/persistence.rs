//! The rules of the Hotkeys feature's own storage: its schema, the order in which mappings are
//! kept, and the checks a stored row passes before it becomes a mapping again.

use vstd::prelude::*;
use vstd::string::*;

use crate::hotkeys::domain::Mapping;
use crate::hotkeys::feature::FEATURE_SCHEMA_VERSION;
use crate::persistence::{
    persistence_message, persistence_message_prefix, starts_with, MigrationHeader,
    PersistenceError,
};
use crate::text::{decimal, decimal_text, digit_char};

verus! {

/// `uuid::Error`, carried through as an opaque parse failure.
#[verifier::external_type_specification]
#[verifier::external_body]
pub struct ExUuidError(uuid::Error);

/// `serde_json::Error`, carried through as an opaque serialization failure.
#[verifier::external_type_specification]
#[verifier::external_body]
pub struct ExJsonError(serde_json::Error);

/// The schema version of the Hotkeys database.
pub const SCHEMA_VERSION: i64 = 1;

/// The version of the JSON payload format stored for each mapping.
pub const PAYLOAD_FORMAT_VERSION: i64 = 1;

/// Errors raised by the Hotkeys repository. Mapping identifiers are the 128-bit values of
/// their UUIDs.
#[derive(Debug)]
pub enum RepositoryError {
    Shared(PersistenceError),
    Sqlite(rusqlite::Error),
    Serialization(serde_json::Error),
    DuplicateMapping { id: u128 },
    NotFound { id: u128 },
    UnsupportedPayloadVersion { id: u128, version: i64 },
    InvalidStoredMappingId { stored_id: String, source: uuid::Error },
    InvalidPayload { id: u128, detail: String },
    OrderingOverflow,
}

/// The lowercase hexadecimal digit for `n`, which lies in `0..16`.
pub open spec fn hex_digit(n: int) -> char {
    if n < 10 {
        digit_char(n)
    } else if n == 10 {
        'a'
    } else if n == 11 {
        'b'
    } else if n == 12 {
        'c'
    } else if n == 13 {
        'd'
    } else if n == 14 {
        'e'
    } else {
        'f'
    }
}

/// Hexadecimal digit `d` of `id`, counting from the most significant (`d` in `0..32`).
pub open spec fn uuid_nibble(id: u128, d: int) -> int {
    ((id >> ((124 - 4 * d) as u128)) & 15u128) as int
}

/// The digit shown at position `k` of the hyphenated form (hyphens at 8, 13, 18 and 23).
pub open spec fn uuid_digit_index(k: int) -> int {
    if k < 8 {
        k
    } else if k < 13 {
        k - 1
    } else if k < 18 {
        k - 2
    } else if k < 23 {
        k - 3
    } else {
        k - 4
    }
}

/// The hyphenated lowercase text of the UUID whose 128-bit value is `id`: its 32 hexadecimal
/// digits, most significant first, in groups of 8, 4, 4, 4 and 12 joined by hyphens.
pub open spec fn uuid_text(id: u128) -> Seq<char> {
    Seq::new(
        36,
        |k: int|
            if k == 8 || k == 13 || k == 18 || k == 23 {
                '-'
            } else {
                hex_digit(uuid_nibble(id, uuid_digit_index(k)))
            },
    )
}

/// `uuid::Uuid::from_u128`, then `Display` through `ToString`, which writes the hyphenated
/// lowercase form (`format_hyphenated` in the `uuid` crate).
#[verifier::external_body]
fn uuid_string(id: u128) -> (text: String)
    ensures
        text@ == uuid_text(id),
{
    uuid::Uuid::from_u128(id).to_string()
}

/// The text under which a mapping's identifier is stored: the hyphenated lowercase form of
/// its UUID.
pub fn mapping_key(id: u128) -> (text: String)
    ensures
        text@ == uuid_text(id),
{
    uuid_string(id)
}

/// `Display` of `uuid::Error`, through `ToString`. Nothing is stated of the text.
#[verifier::external_body]
fn uuid_error_text(error: &uuid::Error) -> String {
    error.to_string()
}

/// `Display` of `serde_json::Error`, through `ToString`. Nothing is stated of the text.
#[verifier::external_body]
fn json_error_text(error: &serde_json::Error) -> String {
    error.to_string()
}

impl RepositoryError {
    /// Whether the error wraps an underlying cause (a persistence, SQLite, JSON or UUID error).
    pub fn has_source(&self) -> (has: bool)
        ensures
            has == (self is Shared || self is Sqlite || self is Serialization
                || self is InvalidStoredMappingId),
    {
        match self {
            RepositoryError::Shared(_) => true,
            RepositoryError::Sqlite(_) => true,
            RepositoryError::Serialization(_) => true,
            RepositoryError::InvalidStoredMappingId { .. } => true,
            RepositoryError::DuplicateMapping { .. } => false,
            RepositoryError::NotFound { .. } => false,
            RepositoryError::UnsupportedPayloadVersion { .. } => false,
            RepositoryError::InvalidPayload { .. } => false,
            RepositoryError::OrderingOverflow => false,
        }
    }

    /// The human-readable explanation of the error. Where the error wraps a failure of
    /// SQLite, the JSON encoder or the UUID parser, the explanation ends with that failure's
    /// own message, of which nothing is stated.
    pub fn message(&self) -> (text: String)
        ensures
            match self {
                RepositoryError::Shared(error) => starts_with(
                    text@,
                    "Hotkeys database error: "@ + persistence_message_prefix(*error),
                ) && (persistence_message(*error) matches Some(t) ==> text@
                    == "Hotkeys database error: "@ + t),
                RepositoryError::Sqlite(_) => starts_with(text@, "Hotkeys SQLite error: "@),
                RepositoryError::Serialization(_) => starts_with(
                    text@,
                    "Hotkeys payload serialization error: "@,
                ),
                RepositoryError::DuplicateMapping { id } => text@ == "mapping "@ + uuid_text(*id)
                    + " already exists"@,
                RepositoryError::NotFound { id } => text@ == "mapping "@ + uuid_text(*id)
                    + " does not exist"@,
                RepositoryError::UnsupportedPayloadVersion { id, version } => text@ == "mapping "@
                    + uuid_text(*id) + " has unsupported payload version "@ + decimal(
                    *version as int,
                ),
                RepositoryError::InvalidStoredMappingId { stored_id, .. } => starts_with(
                    text@,
                    "invalid stored mapping id `"@ + stored_id@ + "`: "@,
                ),
                RepositoryError::InvalidPayload { id, detail } => text@
                    == "invalid persisted mapping "@ + uuid_text(*id) + ": "@ + detail@,
                RepositoryError::OrderingOverflow => text@
                    == "mapping ordering has reached its maximum value"@,
            },
    {
        let mut text: String;
        match self {
            RepositoryError::Shared(error) => {
                text = String::from_str("Hotkeys database error: ");
                let ghost prefix = text@;
                let inner = error.message();
                text.append(inner.as_str());
                assert(text@.subrange(0, prefix.len() as int) =~= prefix);
                proof {
                    let whole = prefix + persistence_message_prefix(*error);
                    assert(inner@.subrange(0, persistence_message_prefix(*error).len() as int)
                        == persistence_message_prefix(*error));
                    assert(text@.subrange(0, whole.len() as int) =~= whole);
                }
            },
            RepositoryError::Sqlite(error) => {
                text = String::from_str("Hotkeys SQLite error: ");
                let ghost prefix = text@;
                text.append(crate::persistence::sqlite_error_text(error).as_str());
                assert(text@.subrange(0, prefix.len() as int) =~= prefix);
            },
            RepositoryError::Serialization(error) => {
                text = String::from_str("Hotkeys payload serialization error: ");
                let ghost prefix = text@;
                text.append(json_error_text(error).as_str());
                assert(text@.subrange(0, prefix.len() as int) =~= prefix);
            },
            RepositoryError::DuplicateMapping { id } => {
                text = String::from_str("mapping ");
                text.append(uuid_string(*id).as_str());
                text.append(" already exists");
            },
            RepositoryError::NotFound { id } => {
                text = String::from_str("mapping ");
                text.append(uuid_string(*id).as_str());
                text.append(" does not exist");
            },
            RepositoryError::UnsupportedPayloadVersion { id, version } => {
                text = String::from_str("mapping ");
                text.append(uuid_string(*id).as_str());
                text.append(" has unsupported payload version ");
                text.append(decimal_text(*version).as_str());
            },
            RepositoryError::InvalidStoredMappingId { stored_id, source } => {
                text = String::from_str("invalid stored mapping id `");
                text.append(stored_id.as_str());
                text.append("`: ");
                let ghost prefix = text@;
                text.append(uuid_error_text(source).as_str());
                assert(text@.subrange(0, prefix.len() as int) =~= prefix);
            },
            RepositoryError::InvalidPayload { id, detail } => {
                text = String::from_str("invalid persisted mapping ");
                text.append(uuid_string(*id).as_str());
                text.append(": ");
                text.append(detail.as_str());
            },
            RepositoryError::OrderingOverflow => {
                text = String::from_str("mapping ordering has reached its maximum value");
            },
        }
        text
    }
}

/// The single migration of the Hotkeys schema, which creates the mappings table.
pub fn mappings_migration() -> (step: MigrationHeader)
    ensures
        step.version == SCHEMA_VERSION,
        step.version == FEATURE_SCHEMA_VERSION,
        step.name@ == "create_mappings"@,
{
    MigrationHeader { version: SCHEMA_VERSION, name: "create_mappings" }
}

/// The sort position of a newly inserted mapping: one after the largest stored position, or
/// zero when nothing is stored. A largest position of `i64::MAX` leaves no room.
pub fn next_sort_order(max_order: Option<i64>) -> (order: Result<i64, RepositoryError>)
    ensures
        match max_order {
            None => order matches Ok(o) && o == 0,
            Some(m) => if m == i64::MAX {
                order matches Err(RepositoryError::OrderingOverflow)
            } else {
                order matches Ok(o) && o == m + 1
            },
        },
{
    match max_order {
        None => Ok(0),
        Some(m) => match m.checked_add(1) {
            Some(o) => Ok(o),
            None => Err(RepositoryError::OrderingOverflow),
        },
    }
}

/// The 128-bit value of the UUID that `uuid::Uuid::parse_str` reads from `text`, or `None`
/// where it refuses the text.
pub uninterp spec fn uuid_value(text: Seq<char>) -> Option<u128>;

/// `uuid::Uuid::parse_str`, then `as_u128`: parses a UUID in any of the textual forms the
/// `uuid` crate accepts. The contract names the result and claims nothing of the format.
#[verifier::external_body]
fn parse_uuid(text: &str) -> (parsed: Result<u128, uuid::Error>)
    ensures
        match parsed {
            Ok(value) => uuid_value(text@) == Some(value),
            Err(_) => uuid_value(text@) is None,
        },
{
    match uuid::Uuid::parse_str(text) {
        Ok(id) => Ok(id.as_u128()),
        Err(error) => Err(error),
    }
}

/// The detail of a row whose enabled column is neither zero nor one.
pub open spec fn invalid_enabled_detail() -> Seq<char> {
    "invalid enabled state"@
}

/// The detail of a row whose columns disagree with its payload.
pub open spec fn mismatch_detail() -> Seq<char> {
    "row metadata does not match payload"@
}

/// Turns a stored row back into a mapping. `payload` is the row's JSON payload as parsed into
/// a mapping, or the parser's message. The checks run in order: the stored identifier must
/// parse as a UUID, the payload version must be the current one, the enabled column must be
/// zero or one, the payload must parse, and the payload must agree with the row's identifier
/// and enabled column.
pub fn hydrate(
    stored_id: &str,
    enabled: i64,
    payload_version: i64,
    payload: Result<Mapping, String>,
) -> (result: Result<Mapping, RepositoryError>)
    ensures
        match uuid_value(stored_id@) {
            None => result matches Err(RepositoryError::InvalidStoredMappingId { stored_id: s, .. })
                && s@ == stored_id@,
            Some(id) => if payload_version != PAYLOAD_FORMAT_VERSION {
                result matches Err(RepositoryError::UnsupportedPayloadVersion { id: i, version })
                    && i == id && version == payload_version
            } else if !(0 <= enabled <= 1) {
                result matches Err(RepositoryError::InvalidPayload { id: i, detail }) && i == id
                    && detail@ == invalid_enabled_detail()
            } else {
                match payload {
                    Err(message) => result matches Err(
                        RepositoryError::InvalidPayload { id: i, detail },
                    ) && i == id && detail@ == message@,
                    Ok(mapping) => if mapping.id != id || mapping.enabled != (enabled != 0) {
                        result matches Err(RepositoryError::InvalidPayload { id: i, detail })
                            && i == id && detail@ == mismatch_detail()
                    } else {
                        result matches Ok(m) && m == mapping
                    },
                }
            },
        },
{
    let id = match parse_uuid(stored_id) {
        Ok(id) => id,
        Err(source) => {
            return Err(
                RepositoryError::InvalidStoredMappingId { stored_id: stored_id.to_owned(), source },
            );
        },
    };
    if payload_version != PAYLOAD_FORMAT_VERSION {
        return Err(RepositoryError::UnsupportedPayloadVersion { id, version: payload_version });
    }
    if !(0 <= enabled && enabled <= 1) {
        return Err(
            RepositoryError::InvalidPayload {
                id,
                detail: "invalid enabled state".to_owned(),
            },
        );
    }
    let mapping = match payload {
        Ok(mapping) => mapping,
        Err(message) => {
            return Err(RepositoryError::InvalidPayload { id, detail: message });
        },
    };
    if mapping.id != id || mapping.enabled != (enabled != 0) {
        return Err(
            RepositoryError::InvalidPayload {
                id,
                detail: "row metadata does not match payload".to_owned(),
            },
        );
    }
    Ok(mapping)
}

/// An insert is refused when a mapping with the same identifier is already stored.
pub fn refuse_duplicate(exists: bool, id: u128) -> (result: Result<(), RepositoryError>)
    ensures
        exists ==> (result matches Err(RepositoryError::DuplicateMapping { id: i }) && i == id),
        !exists ==> result is Ok,
{
    if exists {
        Err(RepositoryError::DuplicateMapping { id })
    } else {
        Ok(())
    }
}

/// A replacement that updated no row names a mapping that is not stored.
pub fn require_updated(updated: usize, id: u128) -> (result: Result<(), RepositoryError>)
    ensures
        updated == 0 ==> (result matches Err(RepositoryError::NotFound { id: i }) && i == id),
        updated != 0 ==> result is Ok,
{
    if updated == 0 {
        Err(RepositoryError::NotFound { id })
    } else {
        Ok(())
    }
}

/// The mapping to store when enabling or disabling mapping `id`: `stored` is what the stored
/// row turned back into, if a row was found. A missing row names a mapping that is not
/// stored; a row that fails its checks gives that failure; otherwise the stored mapping
/// with `enabled` set.
pub fn toggled_mapping(
    id: u128,
    stored: Option<Result<Mapping, RepositoryError>>,
    enabled: bool,
) -> (result: Result<Mapping, RepositoryError>)
    ensures
        match stored {
            None => result matches Err(RepositoryError::NotFound { id: i }) && i == id,
            Some(Err(error)) => result == Err::<Mapping, RepositoryError>(error),
            Some(Ok(mapping)) => result matches Ok(m) && m == (Mapping { enabled, ..mapping }),
        },
{
    match stored {
        None => Err(RepositoryError::NotFound { id }),
        Some(Err(error)) => Err(error),
        Some(Ok(mapping)) => {
            let mut mapping = mapping;
            mapping.enabled = enabled;
            Ok(mapping)
        },
    }
}

} // verus!
