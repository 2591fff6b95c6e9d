//! What the desktop host reports to its user interface: status and error transfer objects,
//! and how persistence failures become safe, localizable errors.

use std::collections::BTreeMap;

use vstd::prelude::*;
use vstd::string::*;

use crate::feature_api::{FeatureLifecycleState, RuntimeMode, StartupPolicy};
use crate::persistence::PersistenceError;
use crate::runtime::{lifecycle_state_name, FeatureRegistry, FeatureSummary, SummaryView};
use crate::text::same_text;

verus! {

/// The kind of failure a command error reports.
#[derive(Clone, Copy, Debug, PartialEq, Eq, Structural)]
pub enum CommandErrorCategoryDto {
    Internal,
    Migration,
    Persistence,
}

/// Whether the core runs normally or waits for the user to recover it.
#[derive(Clone, Copy, Debug, PartialEq, Eq, Structural)]
pub enum CoreRuntimeStateDto {
    Running,
    RecoveryRequired,
}

#[derive(Clone, Copy, Debug, PartialEq, Eq, Structural)]
pub enum RuntimeModeDto {
    EmbeddedBackground,
    EmbeddedOnDemand,
    IsolatedWorker,
}

#[derive(Clone, Copy, Debug, PartialEq, Eq, Structural)]
pub enum StartupPolicyDto {
    Manual,
    OnApplicationStart,
}

#[derive(Clone, Copy, Debug, PartialEq, Eq, Structural)]
pub enum FeatureLifecycleStateDto {
    Unavailable,
    Disabled,
    Starting,
    Running,
    Degraded,
    Stopping,
    Failed,
}

/// An error as the user interface receives it: a stable code, a category, a localization key
/// and context, never the underlying error's own text.
#[derive(Clone, Debug, PartialEq, Eq)]
pub struct CommandErrorDto {
    pub code: String,
    pub category: CommandErrorCategoryDto,
    pub message_key: String,
    pub recoverable: bool,
    pub context: BTreeMap<String, String>,
}

impl CommandErrorDto {
    /// A copy with the same code, category, message key, recoverability and context.
    pub fn duplicate(&self) -> (copy: CommandErrorDto)
        ensures
            copy.code == self.code,
            copy.category == self.category,
            copy.message_key == self.message_key,
            copy.recoverable == self.recoverable,
            copy.context@ == self.context@,
    {
        CommandErrorDto {
            code: self.code.clone(),
            category: self.category,
            message_key: self.message_key.clone(),
            recoverable: self.recoverable,
            context: self.context.clone(),
        }
    }
}

/// A registered feature as the user interface receives it.
#[derive(Clone, Debug, PartialEq, Eq)]
pub struct FeatureSummaryDto {
    pub id: String,
    pub display_name_key: String,
    pub description_key: String,
    pub runtime_mode: RuntimeModeDto,
    pub startup_policy: StartupPolicyDto,
    pub lifecycle_state: FeatureLifecycleStateDto,
}

/// The core's status as the user interface receives it.
#[derive(Clone, Debug, PartialEq, Eq)]
pub struct CoreStatusDto {
    pub app_version: String,
    pub platform: String,
    pub runtime_state: CoreRuntimeStateDto,
    pub schema_version: Option<u32>,
    pub startup_error: Option<CommandErrorDto>,
    pub features: Vec<FeatureSummaryDto>,
}

pub open spec fn runtime_mode_dto(mode: RuntimeMode) -> RuntimeModeDto {
    match mode {
        RuntimeMode::EmbeddedBackground => RuntimeModeDto::EmbeddedBackground,
        RuntimeMode::EmbeddedOnDemand => RuntimeModeDto::EmbeddedOnDemand,
        RuntimeMode::IsolatedWorker => RuntimeModeDto::IsolatedWorker,
    }
}

pub open spec fn startup_policy_dto(policy: StartupPolicy) -> StartupPolicyDto {
    match policy {
        StartupPolicy::Manual => StartupPolicyDto::Manual,
        StartupPolicy::OnApplicationStart => StartupPolicyDto::OnApplicationStart,
    }
}

pub open spec fn lifecycle_state_dto(state: FeatureLifecycleState) -> FeatureLifecycleStateDto {
    match state {
        FeatureLifecycleState::Unavailable => FeatureLifecycleStateDto::Unavailable,
        FeatureLifecycleState::Disabled => FeatureLifecycleStateDto::Disabled,
        FeatureLifecycleState::Starting => FeatureLifecycleStateDto::Starting,
        FeatureLifecycleState::Running => FeatureLifecycleStateDto::Running,
        FeatureLifecycleState::Degraded => FeatureLifecycleStateDto::Degraded,
        FeatureLifecycleState::Stopping => FeatureLifecycleStateDto::Stopping,
        FeatureLifecycleState::Failed => FeatureLifecycleStateDto::Failed,
    }
}

/// The transfer object carries exactly the summary's identifier, keys, mode, policy and state.
pub open spec fn dto_matches(dto: FeatureSummaryDto, summary: SummaryView) -> bool {
    &&& dto.id@ == summary.id
    &&& dto.display_name_key@ == summary.display_name_key
    &&& dto.description_key@ == summary.description_key
    &&& dto.runtime_mode == runtime_mode_dto(summary.runtime_mode)
    &&& dto.startup_policy == startup_policy_dto(summary.startup_policy)
    &&& dto.lifecycle_state == lifecycle_state_dto(summary.lifecycle_state)
}

pub fn feature_summary_dto(summary: &FeatureSummary) -> (dto: FeatureSummaryDto)
    ensures
        dto_matches(dto, summary@),
{
    FeatureSummaryDto {
        id: summary.id.as_str().to_owned(),
        display_name_key: summary.display_name_key.to_owned(),
        description_key: summary.description_key.to_owned(),
        runtime_mode: match summary.runtime_mode {
            RuntimeMode::EmbeddedBackground => RuntimeModeDto::EmbeddedBackground,
            RuntimeMode::EmbeddedOnDemand => RuntimeModeDto::EmbeddedOnDemand,
            RuntimeMode::IsolatedWorker => RuntimeModeDto::IsolatedWorker,
        },
        startup_policy: match summary.startup_policy {
            StartupPolicy::Manual => StartupPolicyDto::Manual,
            StartupPolicy::OnApplicationStart => StartupPolicyDto::OnApplicationStart,
        },
        lifecycle_state: match summary.lifecycle_state {
            FeatureLifecycleState::Unavailable => FeatureLifecycleStateDto::Unavailable,
            FeatureLifecycleState::Disabled => FeatureLifecycleStateDto::Disabled,
            FeatureLifecycleState::Starting => FeatureLifecycleStateDto::Starting,
            FeatureLifecycleState::Running => FeatureLifecycleStateDto::Running,
            FeatureLifecycleState::Degraded => FeatureLifecycleStateDto::Degraded,
            FeatureLifecycleState::Stopping => FeatureLifecycleStateDto::Stopping,
            FeatureLifecycleState::Failed => FeatureLifecycleStateDto::Failed,
        },
    }
}

/// A recoverable error with the given code, category and message key and no context.
pub open spec fn is_command_error(
    dto: CommandErrorDto,
    code: Seq<char>,
    category: CommandErrorCategoryDto,
    message_key: Seq<char>,
) -> bool {
    &&& dto.code@ == code
    &&& dto.category == category
    &&& dto.message_key@ == message_key
    &&& dto.recoverable
    &&& dto.context@ == Map::<String, String>::empty()
}

pub fn command_error(code: &str, category: CommandErrorCategoryDto, message_key: &str) -> (dto:
    CommandErrorDto)
    ensures
        is_command_error(dto, code@, category, message_key@),
{
    CommandErrorDto {
        code: code.to_owned(),
        category,
        message_key: message_key.to_owned(),
        recoverable: true,
        context: BTreeMap::new(),
    }
}

/// The error reported when the core's status cannot be read.
pub fn internal_command_error() -> (dto: CommandErrorDto)
    ensures
        is_command_error(
            dto,
            "core_status_unavailable"@,
            CommandErrorCategoryDto::Internal,
            "error.internal"@,
        ),
{
    command_error("core_status_unavailable", CommandErrorCategoryDto::Internal, "error.internal")
}

/// The error reported when the application data directory cannot be resolved.
pub fn app_data_command_error() -> (dto: CommandErrorDto)
    ensures
        is_command_error(
            dto,
            "core_app_data_unavailable"@,
            CommandErrorCategoryDto::Persistence,
            "errors.core.persistence_unavailable"@,
        ),
{
    command_error(
        "core_app_data_unavailable",
        CommandErrorCategoryDto::Persistence,
        "errors.core.persistence_unavailable",
    )
}

/// The error reported when the recorded schema version does not fit the status report.
pub fn schema_version_command_error() -> (dto: CommandErrorDto)
    ensures
        is_command_error(
            dto,
            "core_schema_version_invalid"@,
            CommandErrorCategoryDto::Migration,
            "errors.core.schema_invalid"@,
        ),
{
    command_error(
        "core_schema_version_invalid",
        CommandErrorCategoryDto::Migration,
        "errors.core.schema_invalid",
    )
}

/// The stable code of each kind of persistence failure.
pub open spec fn persistence_error_code(error: PersistenceError) -> Seq<char> {
    match error {
        PersistenceError::Migration { .. } => "core_migration_failed"@,
        PersistenceError::InvalidMigrationPlan { .. } => "core_migration_plan_invalid"@,
        PersistenceError::FutureSchema { .. } => "core_schema_unsupported"@,
        PersistenceError::InconsistentSchema { .. } => "core_schema_inconsistent"@,
        PersistenceError::Io { .. } => "core_persistence_io_failed"@,
        PersistenceError::Sqlite { .. } => "core_persistence_database_failed"@,
        PersistenceError::InvalidDurabilityProfile { .. } => "core_persistence_profile_invalid"@,
        PersistenceError::InvalidFeatureId { .. } => "core_persistence_feature_id_invalid"@,
    }
}

/// Schema and migration failures are migration errors; the rest are persistence errors.
pub open spec fn persistence_error_category(error: PersistenceError) -> CommandErrorCategoryDto {
    match error {
        PersistenceError::Migration { .. } => CommandErrorCategoryDto::Migration,
        PersistenceError::InvalidMigrationPlan { .. } => CommandErrorCategoryDto::Migration,
        PersistenceError::FutureSchema { .. } => CommandErrorCategoryDto::Migration,
        PersistenceError::InconsistentSchema { .. } => CommandErrorCategoryDto::Migration,
        _ => CommandErrorCategoryDto::Persistence,
    }
}

pub open spec fn persistence_error_message_key(error: PersistenceError) -> Seq<char> {
    match error {
        PersistenceError::Migration { .. } => "errors.core.migration_failed"@,
        PersistenceError::InvalidMigrationPlan { .. } => "errors.core.migration_failed"@,
        PersistenceError::FutureSchema { .. } => "errors.core.schema_unsupported"@,
        PersistenceError::InconsistentSchema { .. } => "errors.core.schema_inconsistent"@,
        _ => "errors.core.persistence_unavailable"@,
    }
}

/// A persistence failure as a safe command error: its code, category and message key depend
/// on the kind of failure alone, so no path, SQL text or message of the cause reaches it.
pub fn persistence_command_error(error: &PersistenceError) -> (dto: CommandErrorDto)
    ensures
        is_command_error(
            dto,
            persistence_error_code(*error),
            persistence_error_category(*error),
            persistence_error_message_key(*error),
        ),
{
    match error {
        PersistenceError::Migration { .. } => command_error(
            "core_migration_failed",
            CommandErrorCategoryDto::Migration,
            "errors.core.migration_failed",
        ),
        PersistenceError::InvalidMigrationPlan { .. } => command_error(
            "core_migration_plan_invalid",
            CommandErrorCategoryDto::Migration,
            "errors.core.migration_failed",
        ),
        PersistenceError::FutureSchema { .. } => command_error(
            "core_schema_unsupported",
            CommandErrorCategoryDto::Migration,
            "errors.core.schema_unsupported",
        ),
        PersistenceError::InconsistentSchema { .. } => command_error(
            "core_schema_inconsistent",
            CommandErrorCategoryDto::Migration,
            "errors.core.schema_inconsistent",
        ),
        PersistenceError::Io { .. } => command_error(
            "core_persistence_io_failed",
            CommandErrorCategoryDto::Persistence,
            "errors.core.persistence_unavailable",
        ),
        PersistenceError::Sqlite { .. } => command_error(
            "core_persistence_database_failed",
            CommandErrorCategoryDto::Persistence,
            "errors.core.persistence_unavailable",
        ),
        PersistenceError::InvalidDurabilityProfile { .. } => command_error(
            "core_persistence_profile_invalid",
            CommandErrorCategoryDto::Persistence,
            "errors.core.persistence_unavailable",
        ),
        PersistenceError::InvalidFeatureId { .. } => command_error(
            "core_persistence_feature_id_invalid",
            CommandErrorCategoryDto::Persistence,
            "errors.core.persistence_unavailable",
        ),
    }
}

/// The diagnostics code recorded for a startup error with command code `code`.
pub open spec fn startup_code_of(code: Seq<char>) -> Seq<char> {
    if code == "core_migration_failed"@ {
        "CORE_MIGRATION_FAILED"@
    } else if code == "core_migration_plan_invalid"@ {
        "CORE_MIGRATION_PLAN_INVALID"@
    } else if code == "core_schema_unsupported"@ {
        "CORE_SCHEMA_UNSUPPORTED"@
    } else if code == "core_schema_inconsistent"@ {
        "CORE_SCHEMA_INCONSISTENT"@
    } else if code == "core_schema_version_invalid"@ {
        "CORE_SCHEMA_VERSION_INVALID"@
    } else if code == "core_app_data_unavailable"@ {
        "CORE_APP_DATA_UNAVAILABLE"@
    } else if code == "core_persistence_io_failed"@ {
        "CORE_PERSISTENCE_IO_FAILED"@
    } else if code == "core_persistence_database_failed"@ {
        "CORE_PERSISTENCE_DATABASE_FAILED"@
    } else if code == "core_persistence_feature_id_invalid"@ {
        "CORE_PERSISTENCE_FEATURE_ID_INVALID"@
    } else if code == "core_persistence_profile_invalid"@ {
        "CORE_PERSISTENCE_PROFILE_INVALID"@
    } else {
        "CORE_PERSISTENCE_RECOVERY"@
    }
}

pub fn startup_error_code(error: &CommandErrorDto) -> (code: &'static str)
    ensures
        code@ == startup_code_of(error.code@),
{
    let code = error.code.as_str();
    if same_text(code, "core_migration_failed") {
        "CORE_MIGRATION_FAILED"
    } else if same_text(code, "core_migration_plan_invalid") {
        "CORE_MIGRATION_PLAN_INVALID"
    } else if same_text(code, "core_schema_unsupported") {
        "CORE_SCHEMA_UNSUPPORTED"
    } else if same_text(code, "core_schema_inconsistent") {
        "CORE_SCHEMA_INCONSISTENT"
    } else if same_text(code, "core_schema_version_invalid") {
        "CORE_SCHEMA_VERSION_INVALID"
    } else if same_text(code, "core_app_data_unavailable") {
        "CORE_APP_DATA_UNAVAILABLE"
    } else if same_text(code, "core_persistence_io_failed") {
        "CORE_PERSISTENCE_IO_FAILED"
    } else if same_text(code, "core_persistence_database_failed") {
        "CORE_PERSISTENCE_DATABASE_FAILED"
    } else if same_text(code, "core_persistence_feature_id_invalid") {
        "CORE_PERSISTENCE_FEATURE_ID_INVALID"
    } else if same_text(code, "core_persistence_profile_invalid") {
        "CORE_PERSISTENCE_PROFILE_INVALID"
    } else {
        "CORE_PERSISTENCE_RECOVERY"
    }
}

/// The core's state once startup has finished, before the user interface asks for it.
#[derive(Debug, PartialEq, Eq)]
pub struct StartupState {
    pub runtime_state: CoreRuntimeStateDto,
    pub schema_version: Option<u32>,
    pub startup_error: Option<CommandErrorDto>,
}

/// Startup failed with `error`: the core waits for recovery and reports no schema version.
pub fn recover(error: CommandErrorDto) -> (state: StartupState)
    ensures
        state.runtime_state == CoreRuntimeStateDto::RecoveryRequired,
        state.schema_version is None,
        state.startup_error == Some(error),
{
    StartupState {
        runtime_state: CoreRuntimeStateDto::RecoveryRequired,
        schema_version: None,
        startup_error: Some(error),
    }
}

/// Startup after the core store opened, from the schema version it reports: a version that
/// fits in `u32` lets the core run; a version that does not, or a failure to read it, sends
/// the core into recovery.
pub fn startup_from_schema_version(version: Result<i64, PersistenceError>) -> (state: StartupState)
    ensures
        match version {
            Ok(v) => if 0 <= v <= u32::MAX {
                state.runtime_state == CoreRuntimeStateDto::Running && state.schema_version
                    == Some(v as u32) && state.startup_error is None
            } else {
                state.runtime_state == CoreRuntimeStateDto::RecoveryRequired
                    && state.schema_version is None && (state.startup_error matches Some(e)
                    && is_command_error(
                    e,
                    "core_schema_version_invalid"@,
                    CommandErrorCategoryDto::Migration,
                    "errors.core.schema_invalid"@,
                ))
            },
            Err(error) => state.runtime_state == CoreRuntimeStateDto::RecoveryRequired
                && state.schema_version is None && (state.startup_error matches Some(e)
                && is_command_error(
                e,
                persistence_error_code(error),
                persistence_error_category(error),
                persistence_error_message_key(error),
            )),
        },
{
    match version {
        Ok(v) => {
            if 0 <= v && v <= 0xffff_ffffi64 {
                StartupState {
                    runtime_state: CoreRuntimeStateDto::Running,
                    schema_version: Some(v as u32),
                    startup_error: None,
                }
            } else {
                recover(schema_version_command_error())
            }
        },
        Err(error) => recover(persistence_command_error(&error)),
    }
}

/// Whether the host opens its control window as soon as it starts: only when startup sent
/// the core into recovery, so that the user sees what needs recovering.
pub fn opens_window_at_startup(state: &StartupState) -> (open: bool)
    ensures
        open == (state.runtime_state == CoreRuntimeStateDto::RecoveryRequired),
{
    state.runtime_state == CoreRuntimeStateDto::RecoveryRequired
}

/// Whether the host refuses a request to exit: closing the last window keeps it running in
/// the tray, and only a quit that the user asked for ends it.
pub fn prevents_exit(exit_requested: bool) -> (prevent: bool)
    ensures
        prevent == !exit_requested,
{
    !exit_requested
}

/// The status report: the host's version and platform, the startup outcome, and a summary of
/// each registered feature in registration order.
pub fn core_status(
    app_version: String,
    platform: String,
    startup: &StartupState,
    registry: &FeatureRegistry,
) -> (status: CoreStatusDto)
    ensures
        status.app_version == app_version,
        status.platform == platform,
        status.runtime_state == startup.runtime_state,
        status.schema_version == startup.schema_version,
        status.startup_error is Some == startup.startup_error is Some,
        status.startup_error matches Some(e) ==> (startup.startup_error matches Some(s)
            && e.code == s.code && e.category == s.category && e.message_key == s.message_key
            && e.recoverable == s.recoverable && e.context@ == s.context@),
        status.features@.len() == registry@.len(),
        forall|i: int|
            0 <= i < registry@.len() ==> dto_matches(#[trigger] status.features@[i], registry@[i]),
{
    let summaries = registry.summaries();
    let mut features: Vec<FeatureSummaryDto> = Vec::new();
    let mut i: usize = 0;
    while i < summaries.len()
        invariant
            0 <= i <= summaries@.len(),
            summaries@.len() == registry@.len(),
            forall|j: int| 0 <= j < registry@.len() ==> #[trigger] summaries@[j]@ == registry@[j],
            features@.len() == i,
            forall|j: int| 0 <= j < i ==> dto_matches(#[trigger] features@[j], registry@[j]),
        decreases summaries@.len() - i,
    {
        features.push(feature_summary_dto(&summaries[i]));
        i = i + 1;
    }
    let startup_error = match &startup.startup_error {
        Some(error) => Some(error.duplicate()),
        None => None,
    };
    CoreStatusDto {
        app_version,
        platform,
        runtime_state: startup.runtime_state,
        schema_version: startup.schema_version,
        startup_error,
        features,
    }
}

/// Every persistence failure has its own diagnostics code: none falls back to the generic
/// recovery code.
pub proof fn lemma_persistence_errors_have_startup_codes(error: PersistenceError)
    ensures
        startup_code_of(persistence_error_code(error)) != "CORE_PERSISTENCE_RECOVERY"@,
{
    reveal_strlit("core_migration_failed");
    reveal_strlit("core_migration_plan_invalid");
    reveal_strlit("core_schema_unsupported");
    reveal_strlit("core_schema_inconsistent");
    reveal_strlit("core_schema_version_invalid");
    reveal_strlit("core_app_data_unavailable");
    reveal_strlit("core_persistence_io_failed");
    reveal_strlit("core_persistence_database_failed");
    reveal_strlit("core_persistence_feature_id_invalid");
    reveal_strlit("core_persistence_profile_invalid");
    reveal_strlit("CORE_PERSISTENCE_RECOVERY");
    let code = persistence_error_code(error);
    match error {
        PersistenceError::Migration { .. } => {
            assert(startup_code_of(code) == "CORE_MIGRATION_FAILED"@);
            reveal_strlit("CORE_MIGRATION_FAILED");
        },
        PersistenceError::InvalidMigrationPlan { .. } => {
            assert(code.len() != "core_migration_failed"@.len());
            assert(startup_code_of(code) == "CORE_MIGRATION_PLAN_INVALID"@);
            reveal_strlit("CORE_MIGRATION_PLAN_INVALID");
        },
        PersistenceError::FutureSchema { .. } => {
            assert(code.len() != "core_migration_failed"@.len());
            assert(code.len() != "core_migration_plan_invalid"@.len());
            assert(startup_code_of(code) == "CORE_SCHEMA_UNSUPPORTED"@);
            reveal_strlit("CORE_SCHEMA_UNSUPPORTED");
        },
        PersistenceError::InconsistentSchema { .. } => {
            assert(code.len() != "core_migration_failed"@.len());
            assert(code.len() != "core_migration_plan_invalid"@.len());
            assert(code.len() != "core_schema_unsupported"@.len());
            assert(startup_code_of(code) == "CORE_SCHEMA_INCONSISTENT"@);
            reveal_strlit("CORE_SCHEMA_INCONSISTENT");
        },
        PersistenceError::Io { .. } => {
            assert(code.len() != "core_migration_failed"@.len());
            assert(code[5] != "core_migration_plan_invalid"@[5]);
            assert(code.len() != "core_schema_unsupported"@.len());
            assert(code.len() != "core_schema_inconsistent"@.len());
            assert(code[5] != "core_schema_version_invalid"@[5]);
            assert(code.len() != "core_app_data_unavailable"@.len());
            assert(startup_code_of(code) == "CORE_PERSISTENCE_IO_FAILED"@);
            reveal_strlit("CORE_PERSISTENCE_IO_FAILED");
        },
        PersistenceError::Sqlite { .. } => {
            assert(code.len() != "core_migration_failed"@.len());
            assert(code.len() != "core_migration_plan_invalid"@.len());
            assert(code.len() != "core_schema_unsupported"@.len());
            assert(code.len() != "core_schema_inconsistent"@.len());
            assert(code.len() != "core_schema_version_invalid"@.len());
            assert(code.len() != "core_app_data_unavailable"@.len());
            assert(code.len() != "core_persistence_io_failed"@.len());
            assert(startup_code_of(code) == "CORE_PERSISTENCE_DATABASE_FAILED"@);
            reveal_strlit("CORE_PERSISTENCE_DATABASE_FAILED");
        },
        PersistenceError::InvalidDurabilityProfile { .. } => {
            assert(code.len() != "core_migration_failed"@.len());
            assert(code.len() != "core_migration_plan_invalid"@.len());
            assert(code.len() != "core_schema_unsupported"@.len());
            assert(code.len() != "core_schema_inconsistent"@.len());
            assert(code.len() != "core_schema_version_invalid"@.len());
            assert(code.len() != "core_app_data_unavailable"@.len());
            assert(code.len() != "core_persistence_io_failed"@.len());
            assert(code[17] != "core_persistence_database_failed"@[17]);
            assert(code.len() != "core_persistence_feature_id_invalid"@.len());
            assert(startup_code_of(code) == "CORE_PERSISTENCE_PROFILE_INVALID"@);
            reveal_strlit("CORE_PERSISTENCE_PROFILE_INVALID");
        },
        PersistenceError::InvalidFeatureId { .. } => {
            assert(code.len() != "core_migration_failed"@.len());
            assert(code.len() != "core_migration_plan_invalid"@.len());
            assert(code.len() != "core_schema_unsupported"@.len());
            assert(code.len() != "core_schema_inconsistent"@.len());
            assert(code.len() != "core_schema_version_invalid"@.len());
            assert(code.len() != "core_app_data_unavailable"@.len());
            assert(code.len() != "core_persistence_io_failed"@.len());
            assert(code.len() != "core_persistence_database_failed"@.len());
            assert(startup_code_of(code) == "CORE_PERSISTENCE_FEATURE_ID_INVALID"@);
            reveal_strlit("CORE_PERSISTENCE_FEATURE_ID_INVALID");
        },
    }
}

/// `c` with a lowercase ASCII letter turned into its uppercase form.
pub open spec fn ascii_upper_char(c: char) -> char {
    if 'a' <= c && c <= 'z' {
        ((c as int) - 32) as char
    } else {
        c
    }
}

/// `text` with every lowercase ASCII letter turned into its uppercase form.
pub open spec fn ascii_upper(text: Seq<char>) -> Seq<char> {
    text.map_values(|c: char| ascii_upper_char(c))
}

proof fn lemma_upper_literal(code: Seq<char>, upper: Seq<char>)
    requires
        code.len() == upper.len(),
        forall|i: int| 0 <= i < code.len() ==> ascii_upper_char(#[trigger] code[i]) == upper[i],
    ensures
        ascii_upper(code) == upper,
{
    assert(ascii_upper(code) =~= upper);
}

/// The diagnostics code of a startup error raised by the host is its command code in
/// uppercase: for every persistence failure, for an unavailable application data directory
/// and for an invalid schema version. Any other code, such as that of the internal status
/// error, falls back to `CORE_PERSISTENCE_RECOVERY`.
pub proof fn lemma_startup_codes_are_uppercase(error: PersistenceError)
    ensures
        startup_code_of(persistence_error_code(error)) == ascii_upper(
            persistence_error_code(error),
        ),
        startup_code_of("core_app_data_unavailable"@) == ascii_upper(
            "core_app_data_unavailable"@,
        ),
        startup_code_of("core_schema_version_invalid"@) == ascii_upper(
            "core_schema_version_invalid"@,
        ),
        startup_code_of("core_status_unavailable"@) == "CORE_PERSISTENCE_RECOVERY"@,
{
    lemma_persistence_errors_have_startup_codes(error);
    reveal_strlit("core_migration_failed");
    reveal_strlit("core_migration_plan_invalid");
    reveal_strlit("core_schema_unsupported");
    reveal_strlit("core_schema_inconsistent");
    reveal_strlit("core_schema_version_invalid");
    reveal_strlit("core_app_data_unavailable");
    reveal_strlit("core_persistence_io_failed");
    reveal_strlit("core_persistence_database_failed");
    reveal_strlit("core_persistence_feature_id_invalid");
    reveal_strlit("core_persistence_profile_invalid");
    reveal_strlit("core_status_unavailable");
    reveal_strlit("CORE_MIGRATION_FAILED");
    reveal_strlit("CORE_MIGRATION_PLAN_INVALID");
    reveal_strlit("CORE_SCHEMA_UNSUPPORTED");
    reveal_strlit("CORE_SCHEMA_INCONSISTENT");
    reveal_strlit("CORE_SCHEMA_VERSION_INVALID");
    reveal_strlit("CORE_APP_DATA_UNAVAILABLE");
    reveal_strlit("CORE_PERSISTENCE_IO_FAILED");
    reveal_strlit("CORE_PERSISTENCE_DATABASE_FAILED");
    reveal_strlit("CORE_PERSISTENCE_FEATURE_ID_INVALID");
    reveal_strlit("CORE_PERSISTENCE_PROFILE_INVALID");
    let code = persistence_error_code(error);
    assert(startup_code_of(code) == ascii_upper(code)) by {
        lemma_upper_literal(code, startup_code_of(code));
    }
    let app_data = "core_app_data_unavailable"@;
    assert(app_data.len() != "core_migration_failed"@.len());
    assert(app_data.len() != "core_migration_plan_invalid"@.len());
    assert(app_data.len() != "core_schema_unsupported"@.len());
    assert(app_data.len() != "core_schema_inconsistent"@.len());
    assert(app_data.len() != "core_schema_version_invalid"@.len());
    lemma_upper_literal(app_data, "CORE_APP_DATA_UNAVAILABLE"@);
    let schema = "core_schema_version_invalid"@;
    assert(schema.len() != "core_migration_failed"@.len());
    assert(schema[5] != "core_migration_plan_invalid"@[5]);
    assert(schema.len() != "core_schema_unsupported"@.len());
    assert(schema.len() != "core_schema_inconsistent"@.len());
    lemma_upper_literal(schema, "CORE_SCHEMA_VERSION_INVALID"@);
    let status = "core_status_unavailable"@;
    assert(status.len() != "core_migration_failed"@.len());
    assert(status.len() != "core_migration_plan_invalid"@.len());
    assert(status[6] != "core_schema_unsupported"@[6]);
    assert(status.len() != "core_schema_inconsistent"@.len());
    assert(status.len() != "core_schema_version_invalid"@.len());
    assert(status.len() != "core_app_data_unavailable"@.len());
    assert(status.len() != "core_persistence_io_failed"@.len());
    assert(status.len() != "core_persistence_database_failed"@.len());
    assert(status.len() != "core_persistence_feature_id_invalid"@.len());
    assert(status.len() != "core_persistence_profile_invalid"@.len());
}

/// The name of a lifecycle state as the user interface receives it.
pub open spec fn lifecycle_state_dto_name(state: FeatureLifecycleStateDto) -> Seq<char> {
    match state {
        FeatureLifecycleStateDto::Unavailable => "Unavailable"@,
        FeatureLifecycleStateDto::Disabled => "Disabled"@,
        FeatureLifecycleStateDto::Starting => "Starting"@,
        FeatureLifecycleStateDto::Running => "Running"@,
        FeatureLifecycleStateDto::Degraded => "Degraded"@,
        FeatureLifecycleStateDto::Stopping => "Stopping"@,
        FeatureLifecycleStateDto::Failed => "Failed"@,
    }
}

/// The user interface is told the lifecycle state a feature is in: the transfer state has the
/// name of the feature's state, and different states reach it as different transfer states.
pub proof fn lemma_lifecycle_state_reported_faithfully(
    state: FeatureLifecycleState,
    other: FeatureLifecycleState,
)
    ensures
        lifecycle_state_dto_name(lifecycle_state_dto(state)) == lifecycle_state_name(state),
        state != other ==> lifecycle_state_dto(state) != lifecycle_state_dto(other),
        state == FeatureLifecycleState::Running ==> lifecycle_state_dto(state)
            == FeatureLifecycleStateDto::Running,
{
}

/// Runtime modes and startup policies reach the user interface unmerged: different modes,
/// and different policies, give different transfer values.
pub proof fn lemma_modes_and_policies_reported_faithfully(
    mode: RuntimeMode,
    other_mode: RuntimeMode,
    policy: StartupPolicy,
    other_policy: StartupPolicy,
)
    ensures
        mode != other_mode ==> runtime_mode_dto(mode) != runtime_mode_dto(other_mode),
        policy != other_policy ==> startup_policy_dto(policy) != startup_policy_dto(other_policy),
{
}

} // verus!
