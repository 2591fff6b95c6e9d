use qbit_toolbox::feature_api::{
    BackgroundRequirement, FeatureDescriptor, FeatureDiagnosticsMetadata, FeatureId,
    FeatureIdError, FeatureLifecycleState, RuntimeMode, StartupPolicy,
};
use qbit_toolbox::host::{
    app_data_command_error, command_error, core_status, feature_summary_dto,
    internal_command_error, opens_window_at_startup, persistence_command_error, prevents_exit,
    recover, schema_version_command_error,
    startup_error_code, startup_from_schema_version, CommandErrorCategoryDto,
    CoreRuntimeStateDto, FeatureLifecycleStateDto, RuntimeModeDto, StartupPolicyDto,
};
use qbit_toolbox::persistence::{DurabilityProfile, MigrationPlanError, PersistenceError};
use qbit_toolbox::runtime::FeatureRegistry;

#[test]
fn future_schema_maps_to_a_safe_migration_error() {
    let error = persistence_command_error(&PersistenceError::FutureSchema {
        current_version: 2,
        latest_supported_version: 1,
    });

    assert_eq!(error.category, CommandErrorCategoryDto::Migration);
    assert_eq!(error.code, "core_schema_unsupported");
    assert_eq!(error.message_key, "errors.core.schema_unsupported");
    assert!(error.context.is_empty());
}

#[test]
fn invalid_migration_plan_maps_to_a_safe_migration_error() {
    let error = persistence_command_error(&PersistenceError::InvalidMigrationPlan {
        source: MigrationPlanError::EmptyName { version: 42 },
    });

    assert_eq!(error.category, CommandErrorCategoryDto::Migration);
    assert_eq!(error.code, "core_migration_plan_invalid");
    assert_eq!(startup_error_code(&error), "CORE_MIGRATION_PLAN_INVALID");
    assert_eq!(error.message_key, "errors.core.migration_failed");
    assert!(error.context.is_empty());
}

#[test]
fn invalid_feature_id_maps_to_a_safe_persistence_error() {
    let error = persistence_command_error(&PersistenceError::InvalidFeatureId {
        source: FeatureIdError::InvalidCharacter,
    });

    assert_eq!(error.category, CommandErrorCategoryDto::Persistence);
    assert_eq!(error.code, "core_persistence_feature_id_invalid");
    assert_eq!(
        startup_error_code(&error),
        "CORE_PERSISTENCE_FEATURE_ID_INVALID"
    );
    assert_eq!(error.message_key, "errors.core.persistence_unavailable");
    assert!(error.context.is_empty());
}

#[test]
fn io_error_maps_to_a_safe_persistence_error() {
    let error = persistence_command_error(&PersistenceError::Io {
        source: std::io::Error::other("sensitive filesystem detail"),
    });

    assert_eq!(error.category, CommandErrorCategoryDto::Persistence);
    assert_eq!(error.code, "core_persistence_io_failed");
    assert_eq!(error.message_key, "errors.core.persistence_unavailable");
    assert!(error.context.is_empty());
    assert!(!error.code.contains("sensitive"));
    assert!(!error.message_key.contains("sensitive"));
}

#[test]
fn every_persistence_error_has_its_own_startup_code() {
    let cases = [
        (
            PersistenceError::InconsistentSchema {
                detail: "secret detail".to_owned(),
            },
            "core_schema_inconsistent",
            CommandErrorCategoryDto::Migration,
            "errors.core.schema_inconsistent",
            "CORE_SCHEMA_INCONSISTENT",
        ),
        (
            PersistenceError::InvalidDurabilityProfile {
                profile: DurabilityProfile::Rebuildable,
            },
            "core_persistence_profile_invalid",
            CommandErrorCategoryDto::Persistence,
            "errors.core.persistence_unavailable",
            "CORE_PERSISTENCE_PROFILE_INVALID",
        ),
        (
            PersistenceError::FutureSchema {
                current_version: 9,
                latest_supported_version: 3,
            },
            "core_schema_unsupported",
            CommandErrorCategoryDto::Migration,
            "errors.core.schema_unsupported",
            "CORE_SCHEMA_UNSUPPORTED",
        ),
    ];
    for (error, code, category, key, startup) in cases {
        let dto = persistence_command_error(&error);
        assert_eq!(dto.code, code);
        assert_eq!(dto.category, category);
        assert_eq!(dto.message_key, key);
        assert!(dto.recoverable);
        assert_eq!(startup_error_code(&dto), startup);
    }
}

#[test]
fn fixed_command_errors_and_unknown_codes() {
    let internal = internal_command_error();
    assert_eq!(internal.code, "core_status_unavailable");
    assert_eq!(internal.category, CommandErrorCategoryDto::Internal);
    assert_eq!(internal.message_key, "error.internal");
    assert_eq!(startup_error_code(&internal), "CORE_PERSISTENCE_RECOVERY");

    let app_data = app_data_command_error();
    assert_eq!(app_data.code, "core_app_data_unavailable");
    assert_eq!(startup_error_code(&app_data), "CORE_APP_DATA_UNAVAILABLE");

    let schema = schema_version_command_error();
    assert_eq!(schema.code, "core_schema_version_invalid");
    assert_eq!(schema.message_key, "errors.core.schema_invalid");
    assert_eq!(startup_error_code(&schema), "CORE_SCHEMA_VERSION_INVALID");

    let custom = command_error("custom", CommandErrorCategoryDto::Persistence, "key");
    assert!(custom.recoverable);
    assert!(custom.context.is_empty());
    assert_eq!(startup_error_code(&custom), "CORE_PERSISTENCE_RECOVERY");
}

#[test]
fn startup_state_follows_the_schema_version() {
    let running = startup_from_schema_version(Ok(1));
    assert_eq!(running.runtime_state, CoreRuntimeStateDto::Running);
    assert_eq!(running.schema_version, Some(1));
    assert!(running.startup_error.is_none());

    let too_large = startup_from_schema_version(Ok(i64::from(u32::MAX) + 1));
    assert_eq!(too_large.runtime_state, CoreRuntimeStateDto::RecoveryRequired);
    assert_eq!(too_large.schema_version, None);
    assert_eq!(
        too_large.startup_error.unwrap().code,
        "core_schema_version_invalid"
    );

    let negative = startup_from_schema_version(Ok(-1));
    assert_eq!(negative.runtime_state, CoreRuntimeStateDto::RecoveryRequired);

    let failed = startup_from_schema_version(Err(PersistenceError::InconsistentSchema {
        detail: "x".to_owned(),
    }));
    assert_eq!(failed.runtime_state, CoreRuntimeStateDto::RecoveryRequired);
    assert_eq!(
        failed.startup_error.unwrap().code,
        "core_schema_inconsistent"
    );

    let recovered = recover(app_data_command_error());
    assert_eq!(recovered.runtime_state, CoreRuntimeStateDto::RecoveryRequired);
    assert_eq!(recovered.schema_version, None);
}

#[test]
fn status_reports_features_in_registration_order() {
    let mut registry = FeatureRegistry::new();
    for id in ["qbit.first", "qbit.second"] {
        registry
            .register(FeatureDescriptor {
                id: FeatureId::new(id).unwrap(),
                display_name_key: "name",
                description_key: "description",
                version: None,
                supported_platforms: &[],
                runtime_mode: RuntimeMode::EmbeddedOnDemand,
                startup_policy: StartupPolicy::OnApplicationStart,
                capabilities: &[],
                storage: &[],
                background_requirement: BackgroundRequirement::OnDemand,
                dependencies: &[],
                ui: None,
                diagnostics: FeatureDiagnosticsMetadata { component: "c" },
            })
            .unwrap();
    }
    registry
        .set_lifecycle_state(
            &FeatureId::new("qbit.second").unwrap(),
            FeatureLifecycleState::Degraded,
        )
        .unwrap();
    let startup = startup_from_schema_version(Ok(1));
    let status = core_status("0.1.0".to_owned(), "linux".to_owned(), &startup, &registry);
    assert_eq!(status.app_version, "0.1.0");
    assert_eq!(status.platform, "linux");
    assert_eq!(status.schema_version, Some(1));
    assert_eq!(status.features.len(), 2);
    assert_eq!(status.features[0].id, "qbit.first");
    assert_eq!(status.features[1].id, "qbit.second");
    assert_eq!(
        status.features[1].lifecycle_state,
        FeatureLifecycleStateDto::Degraded
    );
    assert_eq!(status.features[0].runtime_mode, RuntimeModeDto::EmbeddedOnDemand);
    assert_eq!(
        status.features[0].startup_policy,
        StartupPolicyDto::OnApplicationStart
    );
    let summary = registry.summaries().remove(0);
    assert_eq!(feature_summary_dto(&summary), status.features[0]);
}

#[test]
fn startup_codes_are_the_uppercased_command_codes() {
    let errors = [
        persistence_command_error(&PersistenceError::Io {
            source: std::io::Error::other("x"),
        }),
        persistence_command_error(&PersistenceError::InconsistentSchema {
            detail: String::new(),
        }),
        persistence_command_error(&PersistenceError::InvalidMigrationPlan {
            source: MigrationPlanError::EmptyName { version: 1 },
        }),
        persistence_command_error(&PersistenceError::InvalidDurabilityProfile {
            profile: DurabilityProfile::Standard,
        }),
        app_data_command_error(),
        schema_version_command_error(),
    ];
    for error in errors {
        assert_eq!(startup_error_code(&error), error.code.to_ascii_uppercase());
    }
    assert_eq!(
        startup_error_code(&internal_command_error()),
        "CORE_PERSISTENCE_RECOVERY"
    );
}

#[test]
fn host_opens_its_window_only_for_recovery_and_exits_only_on_quit() {
    assert!(!opens_window_at_startup(&startup_from_schema_version(Ok(1))));
    assert!(opens_window_at_startup(&recover(app_data_command_error())));
    assert!(prevents_exit(false));
    assert!(!prevents_exit(true));
}
