//! SQLite durability and migration policy, and the canonical layout of feature databases.

use std::path::{Path, PathBuf};

use vstd::prelude::*;
use vstd::string::*;

use crate::feature_api::{feature_id_check, FeatureId, FeatureIdError};
use crate::text::{decimal, decimal_text, text_len};

verus! {

/// `std::io::Error`, carried through as an opaque failure.
#[verifier::external_type_specification]
#[verifier::external_body]
pub struct ExIoError(std::io::Error);

/// `rusqlite::Error`, carried through as an opaque failure.
#[verifier::external_type_specification]
#[verifier::external_body]
pub struct ExSqliteError(rusqlite::Error);

/// `std::path::Path`, carried through as an opaque location.
#[verifier::external_type_specification]
#[verifier::external_body]
pub struct ExPath(Path);

/// `std::path::PathBuf`, carried through as an opaque location.
#[verifier::external_type_specification]
#[verifier::external_body]
pub struct ExPathBuf(PathBuf);

/// Directory below the application data root that holds every database.
pub const DATABASE_DIRECTORY: &'static str = "data";

/// File name of the core database inside [`DATABASE_DIRECTORY`].
pub const DATABASE_FILE: &'static str = "core.db";

/// How long a connection waits for a lock before giving up, in seconds.
pub const BUSY_TIMEOUT_SECS: u64 = 5;

/// The durability guarantees requested for a SQLite store.
#[derive(Clone, Copy, Debug, PartialEq, Eq, Structural)]
pub enum DurabilityProfile {
    Critical,
    Standard,
    Rebuildable,
}

/// Errors in a migration plan supplied to a migration run.
#[derive(Clone, Copy, Debug, PartialEq, Eq, Structural)]
pub enum MigrationPlanError {
    NonPositiveVersion { version: i64 },
    VersionsNotStrictlyIncreasing { previous_version: i64, version: i64 },
    EmptyName { version: i64 },
}

/// The explanation of a migration-plan error.
pub open spec fn plan_error_message(error: MigrationPlanError) -> Seq<char> {
    match error {
        MigrationPlanError::NonPositiveVersion { version } => "migration version "@ + decimal(
            version as int,
        ) + " must be positive"@,
        MigrationPlanError::VersionsNotStrictlyIncreasing { previous_version, version } =>
            "migration version "@ + decimal(version as int)
            + " must be greater than previous version "@ + decimal(previous_version as int),
        MigrationPlanError::EmptyName { version } => "migration "@ + decimal(version as int)
            + " has an empty name"@,
    }
}

impl MigrationPlanError {
    /// The human-readable explanation of the error.
    pub fn message(&self) -> (text: String)
        ensures
            text@ == plan_error_message(*self),
    {
        match self {
            MigrationPlanError::NonPositiveVersion { version } => {
                let mut text = String::from_str("migration version ");
                text.append(decimal_text(*version).as_str());
                text.append(" must be positive");
                text
            },
            MigrationPlanError::VersionsNotStrictlyIncreasing { previous_version, version } => {
                let mut text = String::from_str("migration version ");
                text.append(decimal_text(*version).as_str());
                text.append(" must be greater than previous version ");
                text.append(decimal_text(*previous_version).as_str());
                text
            },
            MigrationPlanError::EmptyName { version } => {
                let mut text = String::from_str("migration ");
                text.append(decimal_text(*version).as_str());
                text.append(" has an empty name");
                text
            },
        }
    }
}

/// Errors raised while opening or using a persistence store.
#[derive(Debug)]
pub enum PersistenceError {
    Io { source: std::io::Error },
    Sqlite { source: rusqlite::Error },
    InvalidDurabilityProfile { profile: DurabilityProfile },
    Migration { version: i64, name: &'static str, source: rusqlite::Error },
    InvalidMigrationPlan { source: MigrationPlanError },
    FutureSchema { current_version: i64, latest_supported_version: i64 },
    InconsistentSchema { detail: String },
    InvalidFeatureId { source: FeatureIdError },
}

/// `Display` of `std::io::Error`, through `ToString`. Nothing is stated of the text, which
/// the operating system's error message decides.
#[verifier::external_body]
fn io_error_text(error: &std::io::Error) -> String {
    error.to_string()
}

/// `Display` of `rusqlite::Error`, through `ToString`. Nothing is stated of the text, which
/// SQLite's error message decides.
#[verifier::external_body]
pub(crate) fn sqlite_error_text(error: &rusqlite::Error) -> String {
    error.to_string()
}

/// The name of a durability profile as it appears in messages.
pub open spec fn profile_name(profile: DurabilityProfile) -> Seq<char> {
    match profile {
        DurabilityProfile::Critical => "Critical"@,
        DurabilityProfile::Standard => "Standard"@,
        DurabilityProfile::Rebuildable => "Rebuildable"@,
    }
}

fn profile_text(profile: DurabilityProfile) -> (text: &'static str)
    ensures
        text@ == profile_name(profile),
{
    match profile {
        DurabilityProfile::Critical => "Critical",
        DurabilityProfile::Standard => "Standard",
        DurabilityProfile::Rebuildable => "Rebuildable",
    }
}

/// `text` starts with `prefix`.
pub open spec fn starts_with(text: Seq<char>, prefix: Seq<char>) -> bool {
    prefix.len() <= text.len() && text.subrange(0, prefix.len() as int) == prefix
}

/// The explanation of a persistence error that wraps no I/O or SQLite failure; `None` for
/// one that does, whose explanation ends with that failure's own message.
pub open spec fn persistence_message(error: PersistenceError) -> Option<Seq<char>> {
    match error {
        PersistenceError::InvalidDurabilityProfile { profile } => Some(
            "durability profile "@ + profile_name(profile) + " is not valid for this store"@,
        ),
        PersistenceError::InvalidMigrationPlan { source } => Some(
            "invalid migration plan: "@ + plan_error_message(source),
        ),
        PersistenceError::FutureSchema { current_version, latest_supported_version } => Some(
            "database schema version "@ + decimal(current_version as int)
                + " is newer than supported version "@ + decimal(latest_supported_version as int),
        ),
        PersistenceError::InconsistentSchema { detail } => Some(
            "inconsistent database schema: "@ + detail@,
        ),
        PersistenceError::InvalidFeatureId { source } => Some(
            "invalid feature id: "@ + crate::feature_api::feature_id_error_message(source),
        ),
        _ => None,
    }
}

/// The part of a persistence error's explanation that the error alone decides: the whole
/// explanation, or, where the error wraps an I/O or SQLite failure, all of it up to that
/// failure's own message.
pub open spec fn persistence_message_prefix(error: PersistenceError) -> Seq<char> {
    match error {
        PersistenceError::Io { .. } => "persistence I/O error: "@,
        PersistenceError::Sqlite { .. } => "SQLite error: "@,
        PersistenceError::Migration { version, name, .. } => "migration "@ + decimal(
            version as int,
        ) + " ("@ + name@ + ") failed: "@,
        _ => persistence_message(error).unwrap(),
    }
}

impl PersistenceError {
    /// The human-readable explanation of the error. Where the error wraps an I/O or SQLite
    /// failure, the explanation ends with that failure's own message, of which nothing is
    /// stated.
    pub fn message(&self) -> (text: String)
        ensures
            match self {
                PersistenceError::Io { .. } => starts_with(text@, "persistence I/O error: "@),
                PersistenceError::Sqlite { .. } => starts_with(text@, "SQLite error: "@),
                PersistenceError::InvalidDurabilityProfile { profile } => text@
                    == "durability profile "@ + profile_name(*profile)
                    + " is not valid for this store"@,
                PersistenceError::Migration { version, name, .. } => starts_with(
                    text@,
                    "migration "@ + decimal(*version as int) + " ("@ + name@ + ") failed: "@,
                ),
                PersistenceError::InvalidMigrationPlan { source } => text@
                    == "invalid migration plan: "@ + plan_error_message(*source),
                PersistenceError::FutureSchema { current_version, latest_supported_version } =>
                    text@ == "database schema version "@ + decimal(*current_version as int)
                    + " is newer than supported version "@ + decimal(
                    *latest_supported_version as int,
                ),
                PersistenceError::InconsistentSchema { detail } => text@
                    == "inconsistent database schema: "@ + detail@,
                PersistenceError::InvalidFeatureId { source } => text@ == "invalid feature id: "@
                    + crate::feature_api::feature_id_error_message(*source),
            },
            persistence_message(*self) matches Some(t) ==> text@ == t,
            starts_with(text@, persistence_message_prefix(*self)),
    {
        let mut text: String;
        match self {
            PersistenceError::Io { source } => {
                text = String::from_str("persistence I/O error: ");
                let ghost prefix = text@;
                text.append(io_error_text(source).as_str());
                assert(text@.subrange(0, prefix.len() as int) =~= prefix);
            },
            PersistenceError::Sqlite { source } => {
                text = String::from_str("SQLite error: ");
                let ghost prefix = text@;
                text.append(sqlite_error_text(source).as_str());
                assert(text@.subrange(0, prefix.len() as int) =~= prefix);
            },
            PersistenceError::InvalidDurabilityProfile { profile } => {
                text = String::from_str("durability profile ");
                text.append(profile_text(*profile));
                text.append(" is not valid for this store");
            },
            PersistenceError::Migration { version, name, source } => {
                text = String::from_str("migration ");
                text.append(decimal_text(*version).as_str());
                text.append(" (");
                text.append(name);
                text.append(") failed: ");
                let ghost prefix = text@;
                text.append(sqlite_error_text(source).as_str());
                assert(text@.subrange(0, prefix.len() as int) =~= prefix);
            },
            PersistenceError::InvalidMigrationPlan { source } => {
                text = String::from_str("invalid migration plan: ");
                text.append(source.message().as_str());
            },
            PersistenceError::FutureSchema { current_version, latest_supported_version } => {
                text = String::from_str("database schema version ");
                text.append(decimal_text(*current_version).as_str());
                text.append(" is newer than supported version ");
                text.append(decimal_text(*latest_supported_version).as_str());
            },
            PersistenceError::InconsistentSchema { detail } => {
                text = String::from_str("inconsistent database schema: ");
                text.append(detail.as_str());
            },
            PersistenceError::InvalidFeatureId { source } => {
                text = String::from_str("invalid feature id: ");
                text.append(source.message());
            },
        }
        proof {
            let prefix = persistence_message_prefix(*self);
            assert(text@.subrange(0, prefix.len() as int) =~= prefix);
        }
        text
    }

    /// Whether the error wraps an underlying cause (an I/O, SQLite, plan or identifier error).
    pub fn has_source(&self) -> (has: bool)
        ensures
            has == (self is Io || self is Sqlite || self is Migration
                || self is InvalidMigrationPlan || self is InvalidFeatureId),
    {
        match self {
            PersistenceError::Io { .. } => true,
            PersistenceError::Sqlite { .. } => true,
            PersistenceError::Migration { .. } => true,
            PersistenceError::InvalidMigrationPlan { .. } => true,
            PersistenceError::InvalidFeatureId { .. } => true,
            PersistenceError::InvalidDurabilityProfile { .. } => false,
            PersistenceError::FutureSchema { .. } => false,
            PersistenceError::InconsistentSchema { .. } => false,
        }
    }
}

/// Durable stores refuse the rebuildable profile before touching the file system.
pub fn check_durability_profile(profile: DurabilityProfile) -> (result: Result<(), PersistenceError>)
    ensures
        profile == DurabilityProfile::Rebuildable <==> (result matches Err(
            PersistenceError::InvalidDurabilityProfile { profile: p },
        ) && p == profile),
        profile != DurabilityProfile::Rebuildable <==> result is Ok,
{
    if profile == DurabilityProfile::Rebuildable {
        Err(PersistenceError::InvalidDurabilityProfile { profile })
    } else {
        Ok(())
    }
}

/// The `synchronous` pragma level of a profile.
pub open spec fn synchronous_level(profile: DurabilityProfile) -> Seq<char> {
    match profile {
        DurabilityProfile::Critical => "FULL"@,
        _ => "NORMAL"@,
    }
}

/// The pragma batch that configures a connection for `profile`.
pub open spec fn connection_pragmas_text(profile: DurabilityProfile) -> Seq<char> {
    "PRAGMA journal_mode = WAL; PRAGMA synchronous = "@ + synchronous_level(profile)
        + "; PRAGMA foreign_keys = ON;"@
}

/// The statements that configure a connection: write-ahead logging, `FULL` synchronous
/// writes for critical data and `NORMAL` for standard data, and enforced foreign keys. The
/// rebuildable profile is refused.
pub fn connection_pragmas(profile: DurabilityProfile) -> (result: Result<String, PersistenceError>)
    ensures
        profile == DurabilityProfile::Rebuildable ==> (result matches Err(
            PersistenceError::InvalidDurabilityProfile { profile: p },
        ) && p == profile),
        profile != DurabilityProfile::Rebuildable ==> (result matches Ok(text) && text@
            == connection_pragmas_text(profile)),
{
    let synchronous = match profile {
        DurabilityProfile::Critical => "FULL",
        DurabilityProfile::Standard => "NORMAL",
        DurabilityProfile::Rebuildable => {
            return Err(PersistenceError::InvalidDurabilityProfile { profile });
        },
    };
    let mut text = String::from_str("PRAGMA journal_mode = WAL; PRAGMA synchronous = ");
    text.append(synchronous);
    text.append("; PRAGMA foreign_keys = ON;");
    Ok(text)
}

/// The identity of one step of a migration plan; the step's SQL stays with its owner.
#[derive(Clone, Copy, Debug, PartialEq, Eq)]
pub struct MigrationHeader {
    pub version: i64,
    pub name: &'static str,
}

/// The error that step `i` of `plan` raises once every earlier step has passed.
pub open spec fn step_error(plan: Seq<MigrationHeader>, i: int) -> Option<MigrationPlanError> {
    let step = plan[i];
    if step.version <= 0 {
        Some(MigrationPlanError::NonPositiveVersion { version: step.version })
    } else if step.name@.len() == 0 {
        Some(MigrationPlanError::EmptyName { version: step.version })
    } else if i > 0 && step.version <= plan[i - 1].version {
        Some(
            MigrationPlanError::VersionsNotStrictlyIncreasing {
                previous_version: plan[i - 1].version,
                version: step.version,
            },
        )
    } else {
        None
    }
}

/// The first error among the first `n` steps of `plan`.
pub open spec fn plan_error_upto(plan: Seq<MigrationHeader>, n: nat) -> Option<
    MigrationPlanError,
>
    decreases n,
{
    if n == 0 {
        None
    } else {
        match plan_error_upto(plan, (n - 1) as nat) {
            Some(error) => Some(error),
            None => step_error(plan, n - 1),
        }
    }
}

/// The first error of `plan`: each version positive, each name non-empty, and versions
/// strictly increasing, checked step by step in that order.
pub open spec fn plan_error(plan: Seq<MigrationHeader>) -> Option<MigrationPlanError> {
    plan_error_upto(plan, plan.len())
}

/// Once the first `k` steps hold an error, every longer prefix holds the same first error.
proof fn lemma_plan_error_persists(plan: Seq<MigrationHeader>, k: nat, m: nat)
    requires
        k <= m,
        plan_error_upto(plan, k) is Some,
    ensures
        plan_error_upto(plan, m) == plan_error_upto(plan, k),
    decreases m - k,
{
    if k < m {
        lemma_plan_error_persists(plan, k, (m - 1) as nat);
    }
}

/// Checks a migration plan before any SQL runs.
pub fn validate_migration_plan(plan: &[MigrationHeader]) -> (result: Result<(), MigrationPlanError>)
    ensures
        match plan_error(plan@) {
            Some(error) => result == Err::<(), MigrationPlanError>(error),
            None => result is Ok,
        },
{
    let mut i: usize = 0;
    while i < plan.len()
        invariant
            0 <= i <= plan@.len(),
            plan_error_upto(plan@, i as nat) is None,
        decreases plan@.len() - i,
    {
        let step = plan[i];
        proof {
            if step_error(plan@, i as int) is Some {
                assert(plan_error_upto(plan@, (i + 1) as nat) == step_error(plan@, i as int));
                lemma_plan_error_persists(plan@, (i + 1) as nat, plan@.len());
            }
        }
        if step.version <= 0 {
            return Err(MigrationPlanError::NonPositiveVersion { version: step.version });
        }
        if text_len(step.name) == 0 {
            return Err(MigrationPlanError::EmptyName { version: step.version });
        }
        if i > 0 && step.version <= plan[i - 1].version {
            return Err(
                MigrationPlanError::VersionsNotStrictlyIncreasing {
                    previous_version: plan[i - 1].version,
                    version: step.version,
                },
            );
        }
        i = i + 1;
    }
    Ok(())
}

/// The newest schema version a plan knows: its last version, or zero for an empty plan.
pub open spec fn latest_version(plan: Seq<MigrationHeader>) -> i64 {
    if plan.len() == 0 {
        0
    } else {
        plan.last().version
    }
}

pub fn latest_supported_version(plan: &[MigrationHeader]) -> (version: i64)
    ensures
        version == latest_version(plan@),
{
    if plan.len() == 0 {
        0
    } else {
        plan[plan.len() - 1].version
    }
}

proof fn lemma_prefix_steps_pass(plan: Seq<MigrationHeader>, n: nat, i: int)
    requires
        n <= plan.len(),
        plan_error_upto(plan, n) is None,
        0 <= i < n,
    ensures
        step_error(plan, i) is None,
    decreases n,
{
    if i < n - 1 {
        lemma_prefix_steps_pass(plan, (n - 1) as nat, i);
    }
}

proof fn lemma_versions_increase(plan: Seq<MigrationHeader>, i: int, j: int)
    requires
        plan_error(plan) is None,
        0 <= i < j < plan.len(),
    ensures
        plan[i].version < plan[j].version,
    decreases j - i,
{
    lemma_prefix_steps_pass(plan, plan.len(), j);
    if i < j - 1 {
        lemma_versions_increase(plan, i, j - 1);
    }
}

/// A plan that passes validation has positive versions that strictly increase and non-empty
/// names, and its latest supported version is the largest version it holds: a fresh
/// database, at version zero, applies every step, and a database recorded at the latest
/// version is never refused as a future schema.
pub proof fn lemma_valid_plan_shape(plan: Seq<MigrationHeader>)
    requires
        plan_error(plan) is None,
    ensures
        forall|i: int| 0 <= i < plan.len() ==> #[trigger] plan[i].version > 0,
        forall|i: int| 0 <= i < plan.len() ==> #[trigger] plan[i].name@.len() > 0,
        forall|i: int, j: int|
            0 <= i < j < plan.len() ==> #[trigger] plan[i].version < #[trigger] plan[j].version,
        forall|i: int| 0 <= i < plan.len() ==> #[trigger] plan[i].version <= latest_version(plan),
{
    assert forall|i: int| 0 <= i < plan.len() implies #[trigger] plan[i].version > 0 by {
        lemma_prefix_steps_pass(plan, plan.len(), i);
    }
    assert forall|i: int| 0 <= i < plan.len() implies #[trigger] plan[i].name@.len() > 0 by {
        lemma_prefix_steps_pass(plan, plan.len(), i);
    }
    assert forall|i: int, j: int| 0 <= i < j < plan.len() implies #[trigger] plan[i].version
        < #[trigger] plan[j].version by {
        lemma_versions_increase(plan, i, j);
    }
    assert forall|i: int| 0 <= i < plan.len() implies #[trigger] plan[i].version <= latest_version(
        plan,
    ) by {
        if i < plan.len() - 1 {
            lemma_versions_increase(plan, i, plan.len() - 1);
        }
    }
}

/// A database whose recorded version is newer than the plan knows is refused.
pub fn check_future_schema(current_version: i64, latest_supported_version: i64) -> (result: Result<
    (),
    PersistenceError,
>)
    ensures
        current_version > latest_supported_version <==> (result matches Err(
            PersistenceError::FutureSchema { current_version: c, latest_supported_version: l },
        ) && c == current_version && l == latest_supported_version),
        current_version <= latest_supported_version <==> result is Ok,
{
    if current_version > latest_supported_version {
        Err(PersistenceError::FutureSchema { current_version, latest_supported_version })
    } else {
        Ok(())
    }
}

/// What a migration run does with one step of its plan.
#[derive(Clone, Copy, Debug, PartialEq, Eq, Structural)]
pub enum MigrationAction {
    /// The step is recorded under its own name: nothing to do.
    Skip,
    /// The step is new: apply it and record it, in one transaction.
    Apply,
}

/// The detail of a step whose version is recorded under another name.
pub open spec fn recorded_as_detail(version: i64, applied_name: Seq<char>) -> Seq<char> {
    "migration "@ + decimal(version as int) + " is recorded as `"@ + applied_name + "`"@
}

/// The detail of a step that is missing although a later version is recorded.
pub open spec fn missing_below_detail(version: i64, current_version: i64) -> Seq<char> {
    "migration "@ + decimal(version as int) + " is missing below recorded version "@ + decimal(
        current_version as int,
    )
}

/// Decides one step of a migration run from the name recorded for its version, if any, and
/// the database's recorded version: a step recorded under its own name is skipped, one
/// recorded under another name or missing below the recorded version makes the schema
/// inconsistent, and any other step is applied.
pub fn migration_step(
    step: MigrationHeader,
    applied_name: Option<String>,
    current_version: i64,
) -> (decision: Result<MigrationAction, PersistenceError>)
    ensures
        match applied_name {
            Some(name) => if name@ == step.name@ {
                decision matches Ok(MigrationAction::Skip)
            } else {
                decision matches Err(PersistenceError::InconsistentSchema { detail })
                    && detail@ == recorded_as_detail(step.version, name@)
            },
            None => if step.version <= current_version {
                decision matches Err(PersistenceError::InconsistentSchema { detail })
                    && detail@ == missing_below_detail(step.version, current_version)
            } else {
                decision matches Ok(MigrationAction::Apply)
            },
        },
{
    match applied_name {
        Some(name) => {
            if crate::text::same_text(name.as_str(), step.name) {
                Ok(MigrationAction::Skip)
            } else {
                let mut detail = String::from_str("migration ");
                detail.append(decimal_text(step.version).as_str());
                detail.append(" is recorded as `");
                detail.append(name.as_str());
                detail.append("`");
                Err(PersistenceError::InconsistentSchema { detail })
            }
        },
        None => {
            if step.version <= current_version {
                let mut detail = String::from_str("migration ");
                detail.append(decimal_text(step.version).as_str());
                detail.append(" is missing below recorded version ");
                detail.append(decimal_text(current_version).as_str());
                Err(PersistenceError::InconsistentSchema { detail })
            } else {
                Ok(MigrationAction::Apply)
            }
        },
    }
}

/// The owned path whose borrowed form is `path`.
pub uninterp spec fn owned_path(path: &Path) -> PathBuf;

/// The path that `Path::join` gives for `base` (taken as the owned path it borrows from)
/// followed by the component `segment`. It depends on these two values alone, for the
/// platform the crate is built for.
pub uninterp spec fn joined_path(base: PathBuf, segment: Seq<char>) -> PathBuf;

/// `Path::join` from std: the path `base` followed by the component `segment`. The contract
/// names the result and claims nothing of how the separator is written.
#[verifier::external_body]
fn join_path(base: &Path, segment: &str) -> (joined: PathBuf)
    ensures
        joined == joined_path(owned_path(base), segment@),
{
    base.join(segment)
}

/// `PathBuf::as_path` from std: the borrowed form of an owned path, which borrows from it.
#[verifier::external_body]
fn as_path(path: &PathBuf) -> (borrowed: &Path)
    ensures
        owned_path(borrowed) == *path,
{
    path.as_path()
}

/// Returns the canonical location for a feature's relational database,
/// `<app_data_root>/data/features/<feature_id>/data.db`, once the identifier is valid. It
/// only computes the path: no file or directory is touched.
pub fn feature_database_path(app_data_root: &Path, feature_id: &str) -> (result: Result<
    PathBuf,
    PersistenceError,
>)
    ensures
        match feature_id_check(feature_id@) {
            Some(error) => result matches Err(PersistenceError::InvalidFeatureId { source })
                && source == error,
            None => result matches Ok(path) && path == joined_path(
                joined_path(
                    joined_path(joined_path(owned_path(app_data_root), "data"@), "features"@),
                    feature_id@,
                ),
                "data.db"@,
            ),
        },
{
    let id = match FeatureId::new(feature_id) {
        Ok(id) => id,
        Err(source) => {
            return Err(PersistenceError::InvalidFeatureId { source });
        },
    };
    let data = join_path(app_data_root, DATABASE_DIRECTORY);
    let features = join_path(as_path(&data), "features");
    let directory = join_path(as_path(&features), id.as_str());
    Ok(join_path(as_path(&directory), "data.db"))
}

} // verus!
