use std::path::Path;

use qbit_toolbox::feature_api::FeatureIdError;
use qbit_toolbox::persistence::{
    check_durability_profile, check_future_schema, connection_pragmas, feature_database_path,
    latest_supported_version, migration_step, validate_migration_plan, DurabilityProfile,
    MigrationAction, MigrationHeader, MigrationPlanError, PersistenceError,
};

fn step(version: i64, name: &'static str) -> MigrationHeader {
    MigrationHeader { version, name }
}

#[test]
fn invalid_migration_plans_are_reported_with_typed_errors() {
    let cases = [
        (
            vec![step(0, "invalid")],
            MigrationPlanError::NonPositiveVersion { version: 0 },
        ),
        (
            vec![step(2, "first"), step(2, "duplicate")],
            MigrationPlanError::VersionsNotStrictlyIncreasing {
                previous_version: 2,
                version: 2,
            },
        ),
        (
            vec![step(2, "first"), step(1, "descending")],
            MigrationPlanError::VersionsNotStrictlyIncreasing {
                previous_version: 2,
                version: 1,
            },
        ),
        (vec![step(1, "")], MigrationPlanError::EmptyName { version: 1 }),
    ];
    for (plan, expected) in cases {
        assert_eq!(validate_migration_plan(&plan), Err(expected));
    }
}

#[test]
fn migration_plan_checks_each_step_in_order() {
    assert_eq!(validate_migration_plan(&[]), Ok(()));
    assert_eq!(
        validate_migration_plan(&[step(1, "a"), step(3, "b"), step(7, "c")]),
        Ok(())
    );
    assert_eq!(
        validate_migration_plan(&[step(-4, "")]),
        Err(MigrationPlanError::NonPositiveVersion { version: -4 })
    );
    assert_eq!(
        validate_migration_plan(&[step(5, "a"), step(3, "")]),
        Err(MigrationPlanError::EmptyName { version: 3 })
    );
    assert_eq!(
        validate_migration_plan(&[step(1, "a"), step(1, "b"), step(0, "c")]),
        Err(MigrationPlanError::VersionsNotStrictlyIncreasing {
            previous_version: 1,
            version: 1
        })
    );
    assert_eq!(latest_supported_version(&[]), 0);
    assert_eq!(latest_supported_version(&[step(1, "a"), step(4, "b")]), 4);
}

#[test]
fn future_schema_is_refused() {
    assert!(check_future_schema(1, 1).is_ok());
    assert!(check_future_schema(0, 1).is_ok());
    assert!(matches!(
        check_future_schema(2, 1),
        Err(PersistenceError::FutureSchema {
            current_version: 2,
            latest_supported_version: 1
        })
    ));
}

#[test]
fn migration_steps_are_skipped_applied_or_refused() {
    assert_eq!(
        migration_step(step(1, "create"), Some("create".to_owned()), 1).unwrap(),
        MigrationAction::Skip
    );
    match migration_step(step(1, "create"), Some("other".to_owned()), 1) {
        Err(PersistenceError::InconsistentSchema { detail }) => {
            assert_eq!(detail, "migration 1 is recorded as `other`")
        }
        other => panic!("unexpected {other:?}"),
    }
    assert_eq!(
        migration_step(step(2, "next"), None, 1).unwrap(),
        MigrationAction::Apply
    );
    match migration_step(step(1, "create"), None, 3) {
        Err(PersistenceError::InconsistentSchema { detail }) => {
            assert_eq!(detail, "migration 1 is missing below recorded version 3")
        }
        other => panic!("unexpected {other:?}"),
    }
}

#[test]
fn persistence_errors_explain_themselves() {
    assert_eq!(
        MigrationPlanError::NonPositiveVersion { version: -12 }.message(),
        "migration version -12 must be positive"
    );
    assert_eq!(
        MigrationPlanError::VersionsNotStrictlyIncreasing {
            previous_version: 20,
            version: 7
        }
        .message(),
        "migration version 7 must be greater than previous version 20"
    );
    assert_eq!(
        MigrationPlanError::EmptyName { version: 9_000_000_000 }.message(),
        "migration 9000000000 has an empty name"
    );
    assert_eq!(
        PersistenceError::FutureSchema {
            current_version: i64::MIN,
            latest_supported_version: i64::MAX
        }
        .message(),
        "database schema version -9223372036854775808 is newer than supported version 9223372036854775807"
    );
    assert_eq!(
        PersistenceError::InvalidDurabilityProfile {
            profile: DurabilityProfile::Rebuildable
        }
        .message(),
        "durability profile Rebuildable is not valid for this store"
    );
    assert_eq!(
        PersistenceError::InvalidMigrationPlan {
            source: MigrationPlanError::EmptyName { version: 0 }
        }
        .message(),
        "invalid migration plan: migration 0 has an empty name"
    );
    assert_eq!(
        PersistenceError::InvalidFeatureId {
            source: FeatureIdError::EmptySlug
        }
        .message(),
        "invalid feature id: feature id slug cannot be empty"
    );
    let io = PersistenceError::Io {
        source: std::io::Error::other("disk gone"),
    }
    .message();
    assert_eq!(io, "persistence I/O error: disk gone");
}

#[test]
fn rebuildable_profile_is_refused_for_durable_stores() {
    assert!(check_durability_profile(DurabilityProfile::Critical).is_ok());
    assert!(check_durability_profile(DurabilityProfile::Standard).is_ok());
    assert!(matches!(
        check_durability_profile(DurabilityProfile::Rebuildable),
        Err(PersistenceError::InvalidDurabilityProfile {
            profile: DurabilityProfile::Rebuildable
        })
    ));
}

#[test]
fn connection_pragmas_follow_the_profile() {
    assert_eq!(
        connection_pragmas(DurabilityProfile::Critical).unwrap(),
        "PRAGMA journal_mode = WAL; PRAGMA synchronous = FULL; PRAGMA foreign_keys = ON;"
    );
    assert_eq!(
        connection_pragmas(DurabilityProfile::Standard).unwrap(),
        "PRAGMA journal_mode = WAL; PRAGMA synchronous = NORMAL; PRAGMA foreign_keys = ON;"
    );
    assert!(matches!(
        connection_pragmas(DurabilityProfile::Rebuildable),
        Err(PersistenceError::InvalidDurabilityProfile { .. })
    ));
}

#[test]
fn feature_database_path_is_canonical() {
    let path = feature_database_path(Path::new("/app"), "qbit.hotkeys").unwrap();
    assert!(path.ends_with("data/features/qbit.hotkeys/data.db"));
    assert!(path.starts_with("/app"));
    assert_eq!(path.components().count(), 6);
    let error = feature_database_path(Path::new("/app"), "invalid").unwrap_err();
    assert!(matches!(
        error,
        PersistenceError::InvalidFeatureId {
            source: FeatureIdError::MissingPrefix
        }
    ));
    assert!(error.has_source());
    assert!(!PersistenceError::FutureSchema {
        current_version: 1,
        latest_supported_version: 0
    }
    .has_source());
}

#[test]
fn feature_database_path_joins_the_canonical_components() {
    let root = Path::new("/srv/app data");
    assert_eq!(
        feature_database_path(root, "qbit.notes").unwrap(),
        root.join("data").join("features").join("qbit.notes").join("data.db")
    );
}
