use qbit_toolbox::hotkeys::domain::{
    Action, Chord, KeyIdentity, KeyToken, Mapping, MappingBehavior, MappingMetadata, Scope,
    Trigger,
};
use qbit_toolbox::hotkeys::persistence::{
    hydrate, mapping_key, mappings_migration, next_sort_order, refuse_duplicate, require_updated,
    toggled_mapping, RepositoryError, PAYLOAD_FORMAT_VERSION, SCHEMA_VERSION,
};
use qbit_toolbox::persistence::PersistenceError;

fn mapping(id: u128, enabled: bool) -> Mapping {
    Mapping::with_id(
        id,
        enabled,
        Trigger::Chord {
            chord: Chord::new(&[], KeyIdentity::Logical(KeyToken::new("KeyA").unwrap())).unwrap(),
        },
        Action::Disable,
        Scope::Global,
        MappingBehavior::default(),
        MappingMetadata::new(Some("label".to_owned())).unwrap(),
    )
}

const FIRST_ID: &str = "00000000-0000-0000-0000-00000000000a";

#[test]
fn sort_order_starts_at_zero_and_refuses_overflow() {
    assert_eq!(next_sort_order(None).unwrap(), 0);
    assert_eq!(next_sort_order(Some(0)).unwrap(), 1);
    assert_eq!(next_sort_order(Some(41)).unwrap(), 42);
    assert!(matches!(
        next_sort_order(Some(i64::MAX)),
        Err(RepositoryError::OrderingOverflow)
    ));
}

#[test]
fn hotkeys_schema_has_one_migration() {
    let step = mappings_migration();
    assert_eq!(step.version, SCHEMA_VERSION);
    assert_eq!(step.version, 1);
    assert_eq!(step.name, "create_mappings");
    assert_eq!(PAYLOAD_FORMAT_VERSION, 1);
}

#[test]
fn stored_rows_become_mappings_after_their_checks() {
    let restored = hydrate(FIRST_ID, 1, 1, Ok(mapping(10, true))).unwrap();
    assert_eq!(restored, mapping(10, true));
    let disabled = hydrate(FIRST_ID, 0, 1, Ok(mapping(10, false))).unwrap();
    assert!(!disabled.enabled);
    assert_eq!(disabled.id, 10);
}

#[test]
fn malformed_rows_are_reported_in_check_order() {
    match hydrate("not-a-uuid", 7, 9, Err("ignored".to_owned())) {
        Err(RepositoryError::InvalidStoredMappingId { stored_id, .. }) => {
            assert_eq!(stored_id, "not-a-uuid")
        }
        other => panic!("unexpected {other:?}"),
    }
    assert!(matches!(
        hydrate(FIRST_ID, 7, 2, Ok(mapping(10, true))),
        Err(RepositoryError::UnsupportedPayloadVersion { id: 10, version: 2 })
    ));
    match hydrate(FIRST_ID, 2, 1, Ok(mapping(10, true))) {
        Err(RepositoryError::InvalidPayload { id, detail }) => {
            assert_eq!(id, 10);
            assert_eq!(detail, "invalid enabled state");
        }
        other => panic!("unexpected {other:?}"),
    }
    match hydrate(FIRST_ID, 1, 1, Err("expected value".to_owned())) {
        Err(RepositoryError::InvalidPayload { id, detail }) => {
            assert_eq!(id, 10);
            assert_eq!(detail, "expected value");
        }
        other => panic!("unexpected {other:?}"),
    }
    for (payload_id, payload_enabled) in [(11, true), (10, false)] {
        match hydrate(FIRST_ID, 1, 1, Ok(mapping(payload_id, payload_enabled))) {
            Err(RepositoryError::InvalidPayload { id, detail }) => {
                assert_eq!(id, 10);
                assert_eq!(detail, "row metadata does not match payload");
            }
            other => panic!("unexpected {other:?}"),
        }
    }
}

#[test]
fn stored_ids_accept_the_uuid_text_forms() {
    let simple = hydrate("0000000000000000000000000000000a", 1, 1, Ok(mapping(10, true)));
    assert!(simple.is_ok());
    let braced = hydrate("{00000000-0000-0000-0000-00000000000a}", 1, 1, Ok(mapping(10, true)));
    assert!(braced.is_ok());
}

#[test]
fn repository_errors_explain_themselves() {
    assert_eq!(
        RepositoryError::DuplicateMapping { id: 1 }.message(),
        "mapping 00000000-0000-0000-0000-000000000001 already exists"
    );
    assert_eq!(
        RepositoryError::NotFound {
            id: 0x11111111111111111111111111111111
        }
        .message(),
        "mapping 11111111-1111-1111-1111-111111111111 does not exist"
    );
    assert_eq!(
        RepositoryError::UnsupportedPayloadVersion { id: 10, version: 3 }.message(),
        "mapping 00000000-0000-0000-0000-00000000000a has unsupported payload version 3"
    );
    assert_eq!(
        RepositoryError::InvalidPayload {
            id: 10,
            detail: "bad".to_owned()
        }
        .message(),
        "invalid persisted mapping 00000000-0000-0000-0000-00000000000a: bad"
    );
    assert_eq!(
        RepositoryError::OrderingOverflow.message(),
        "mapping ordering has reached its maximum value"
    );
    match hydrate("nope", 1, 1, Err(String::new())) {
        Err(error) => assert!(error
            .message()
            .starts_with("invalid stored mapping id `nope`: ")),
        Ok(_) => panic!("a malformed id was accepted"),
    }
}

#[test]
fn only_wrapping_repository_errors_have_sources() {
    assert!(!RepositoryError::OrderingOverflow.has_source());
    assert!(!RepositoryError::NotFound { id: 3 }.has_source());
    match hydrate("nope", 1, 1, Err(String::new())) {
        Err(error) => assert!(error.has_source()),
        Ok(_) => panic!("a malformed id was accepted"),
    }
}

#[test]
fn repository_refusals_are_typed() {
    assert!(refuse_duplicate(false, 7).is_ok());
    assert!(matches!(
        refuse_duplicate(true, 7),
        Err(RepositoryError::DuplicateMapping { id: 7 })
    ));
    assert!(require_updated(1, 7).is_ok());
    assert!(matches!(
        require_updated(0, 7),
        Err(RepositoryError::NotFound { id: 7 })
    ));
    assert!(matches!(
        toggled_mapping(7, None, true),
        Err(RepositoryError::NotFound { id: 7 })
    ));
    assert!(matches!(
        toggled_mapping(7, Some(Err(RepositoryError::OrderingOverflow)), true),
        Err(RepositoryError::OrderingOverflow)
    ));
    let toggled = toggled_mapping(10, Some(Ok(mapping(10, true))), false).unwrap();
    assert_eq!(toggled, mapping(10, false));
}

#[test]
fn shared_errors_carry_the_persistence_explanation() {
    assert_eq!(
        RepositoryError::Shared(PersistenceError::InconsistentSchema {
            detail: "gap".to_owned()
        })
        .message(),
        "Hotkeys database error: inconsistent database schema: gap"
    );
}

#[test]
fn mapping_keys_are_hyphenated_lowercase_uuids() {
    assert_eq!(mapping_key(0), "00000000-0000-0000-0000-000000000000");
    assert_eq!(
        mapping_key(0x0123456789ABCDEF0123456789ABCDEF),
        "01234567-89ab-cdef-0123-456789abcdef"
    );
    let stored = mapping_key(10);
    assert!(hydrate(&stored, 1, 1, Ok(mapping(10, true))).is_ok());
}

#[test]
fn shared_io_errors_keep_both_prefixes() {
    let text = RepositoryError::Shared(PersistenceError::Io {
        source: std::io::Error::other("gone"),
    })
    .message();
    assert_eq!(text, "Hotkeys database error: persistence I/O error: gone");
}
