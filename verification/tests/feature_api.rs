use qbit_toolbox::feature_api::{
    BackgroundRequirement, CapabilityRequirement, FeatureDependency, FeatureDependencyKind,
    FeatureDescriptor, FeatureDiagnosticsMetadata, FeatureId, FeatureIdError, FeatureUiMetadata,
    FeatureVersion, RuntimeMode, StartupPolicy, StorageClass, StorageRequirement,
    SupportedPlatform,
};

#[test]
fn accepts_valid_feature_ids() {
    assert_eq!(
        FeatureId::new("qbit.clipboard-history").unwrap().as_str(),
        "qbit.clipboard-history"
    );
    assert!(FeatureId::new("qbit.a1-b2").is_ok());
}

#[test]
fn rejects_invalid_feature_ids_with_typed_errors() {
    assert_eq!(
        FeatureId::new("other.feature"),
        Err(FeatureIdError::MissingPrefix)
    );
    assert_eq!(FeatureId::new("qbit."), Err(FeatureIdError::EmptySlug));
    assert_eq!(
        FeatureId::new("qbit.1alpha"),
        Err(FeatureIdError::InvalidStart)
    );
    assert_eq!(
        FeatureId::new("qbit.alpha-"),
        Err(FeatureIdError::TrailingHyphen)
    );
    assert_eq!(
        FeatureId::new("qbit.Alpha"),
        Err(FeatureIdError::InvalidStart)
    );
    assert_eq!(
        FeatureId::new("qbit.alpha_beta"),
        Err(FeatureIdError::InvalidCharacter)
    );
}

#[test]
fn descriptor_reports_platform_and_required_capabilities() {
    let descriptor = FeatureDescriptor {
        id: FeatureId::new("qbit.example").unwrap(),
        display_name_key: "features.example.display-name",
        description_key: "features.example.description",
        version: Some(FeatureVersion {
            implementation: "1.2.3",
            schema: Some(2),
        }),
        supported_platforms: &[SupportedPlatform::Windows, SupportedPlatform::Linux],
        runtime_mode: RuntimeMode::EmbeddedBackground,
        startup_policy: StartupPolicy::OnApplicationStart,
        capabilities: &[
            CapabilityRequirement {
                name: "clipboard.read",
                required: true,
            },
            CapabilityRequirement {
                name: "notifications",
                required: false,
            },
        ],
        storage: &[StorageRequirement {
            class: StorageClass::FeatureRelationalState,
            required: true,
            purpose: "settings",
        }],
        background_requirement: BackgroundRequirement::Continuous,
        dependencies: &[FeatureDependency {
            kind: FeatureDependencyKind::CoreCapability,
            id: "clipboard.read",
        }],
        ui: Some(FeatureUiMetadata {
            route: "/features/example",
        }),
        diagnostics: FeatureDiagnosticsMetadata {
            component: "feature.example",
        },
    };

    assert_eq!(descriptor.display_name_key, "features.example.display-name");
    assert_eq!(descriptor.description_key, "features.example.description");
    assert_eq!(descriptor.version.unwrap().implementation, "1.2.3");
    assert_eq!(descriptor.version.unwrap().schema, Some(2));
    assert!(descriptor.supports(SupportedPlatform::Windows));
    assert!(!descriptor.supports(SupportedPlatform::MacOs));
    assert!(descriptor.requires_capability("clipboard.read"));
    assert!(!descriptor.requires_capability("notifications"));
    assert_eq!(
        descriptor.background_requirement,
        BackgroundRequirement::Continuous
    );
    assert_eq!(
        descriptor.dependencies[0],
        FeatureDependency {
            kind: FeatureDependencyKind::CoreCapability,
            id: "clipboard.read",
        }
    );
    assert_eq!(descriptor.ui.unwrap().route, "/features/example");
    assert_eq!(descriptor.diagnostics.component, "feature.example");
}

#[test]
fn feature_id_rules_apply_in_order() {
    assert_eq!(FeatureId::new(""), Err(FeatureIdError::MissingPrefix));
    assert_eq!(FeatureId::new("qbit"), Err(FeatureIdError::MissingPrefix));
    assert_eq!(FeatureId::new("QBIT.alpha"), Err(FeatureIdError::MissingPrefix));
    assert_eq!(FeatureId::new("qbit.-"), Err(FeatureIdError::InvalidStart));
    assert_eq!(FeatureId::new("qbit.a-"), Err(FeatureIdError::TrailingHyphen));
    assert_eq!(FeatureId::new("qbit.a_-"), Err(FeatureIdError::TrailingHyphen));
    assert_eq!(FeatureId::new("qbit.aé"), Err(FeatureIdError::InvalidCharacter));
    assert_eq!(FeatureId::new("qbit.éa"), Err(FeatureIdError::InvalidStart));
    assert_eq!(FeatureId::new("qbit.a.b"), Err(FeatureIdError::InvalidCharacter));
    assert_eq!(FeatureId::new("qbit.a").unwrap().as_str(), "qbit.a");
    assert_eq!(FeatureId::new("qbit.a--9").unwrap().as_str(), "qbit.a--9");
}

#[test]
fn feature_id_parses_from_str_and_clones() {
    let parsed: FeatureId = "qbit.notes".parse().unwrap();
    assert_eq!(parsed.clone(), parsed);
    assert_eq!(parsed.duplicate().as_str(), "qbit.notes");
    assert!(parsed.same_as(&FeatureId::new("qbit.notes").unwrap()));
    assert!(!parsed.same_as(&FeatureId::new("qbit.other").unwrap()));
    let refused: Result<FeatureId, FeatureIdError> = "qbit.".parse();
    assert_eq!(refused, Err(FeatureIdError::EmptySlug));
}

#[test]
fn feature_id_errors_explain_themselves() {
    assert_eq!(
        FeatureIdError::MissingPrefix.message(),
        "feature id must start with `qbit.`"
    );
    assert_eq!(
        FeatureIdError::TrailingHyphen.message(),
        "feature id slug cannot end with a hyphen"
    );
}

#[test]
fn descriptor_without_platforms_or_capabilities_supports_and_requires_nothing() {
    let descriptor = FeatureDescriptor {
        id: FeatureId::new("qbit.bare").unwrap(),
        display_name_key: "d",
        description_key: "e",
        version: None,
        supported_platforms: &[],
        runtime_mode: RuntimeMode::IsolatedWorker,
        startup_policy: StartupPolicy::Manual,
        capabilities: &[],
        storage: &[],
        background_requirement: BackgroundRequirement::Never,
        dependencies: &[],
        ui: None,
        diagnostics: FeatureDiagnosticsMetadata { component: "c" },
    };
    assert!(!descriptor.supports(SupportedPlatform::Linux));
    assert!(!descriptor.requires_capability(""));
    let copy = descriptor.clone();
    assert_eq!(copy, descriptor);
}

#[test]
fn feature_id_is_a_str() {
    let id = FeatureId::new("qbit.notes").unwrap();
    let text: &str = id.as_ref();
    assert_eq!(text, "qbit.notes");
    assert_eq!(FeatureId::PREFIX, "qbit.");
}
