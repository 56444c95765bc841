//! The ways in which a run fails, and what the operator is told.
//!
//! Every failure is fatal: the run stops, a diagnostic goes to standard
//! error, and the process ends with the failure's exit code.

use crate::config::{ConfigError, ConfigErrorView};
use crate::watermark::WatermarkError;
use vstd::prelude::*;
use vstd::string::StringExecFns;

verus! {

/// The three kinds of failure.
#[derive(Clone, Copy, Debug, PartialEq, Eq, Structural)]
pub enum FailureKind {
    /// The configuration file is missing, unreadable or malformed.
    Configuration,
    /// A repository cannot be opened or created.
    RepositoryAccess,
    /// Reading from or writing to a repository failed.
    StorageOperation,
}

/// A failure of a run.
#[derive(Debug, PartialEq, Eq)]
pub enum Failure {
    /// The configuration file cannot be read.
    ConfigUnreadable,
    /// The configuration file holds no configuration.
    ConfigInvalid(ConfigError),
    /// The façade repository can neither be opened nor created.
    FacadeUnavailable,
    /// The repository of the source of this name cannot be opened.
    SourceUnavailable { name: String },
    /// The watermark file holds no watermark.
    WatermarkInvalid(WatermarkError),
    /// An operation on a repository failed.
    Storage { detail: String },
}

/// A failure as contracts speak of it.
pub enum FailureView {
    ConfigUnreadable,
    ConfigInvalid(ConfigErrorView),
    FacadeUnavailable,
    SourceUnavailable { name: Seq<char> },
    WatermarkInvalid(WatermarkError),
    Storage { detail: Seq<char> },
}

impl View for Failure {
    type V = FailureView;

    open spec fn view(&self) -> FailureView {
        match self {
            Failure::ConfigUnreadable => FailureView::ConfigUnreadable,
            Failure::ConfigInvalid(error) => FailureView::ConfigInvalid(error@),
            Failure::FacadeUnavailable => FailureView::FacadeUnavailable,
            Failure::SourceUnavailable { name } => FailureView::SourceUnavailable { name: name@ },
            Failure::WatermarkInvalid(error) => FailureView::WatermarkInvalid(*error),
            Failure::Storage { detail } => FailureView::Storage { detail: detail@ },
        }
    }
}

impl FailureView {
    pub open spec fn kind(self) -> FailureKind {
        match self {
            FailureView::ConfigUnreadable => FailureKind::Configuration,
            FailureView::ConfigInvalid(_) => FailureKind::Configuration,
            FailureView::FacadeUnavailable => FailureKind::RepositoryAccess,
            FailureView::SourceUnavailable { .. } => FailureKind::RepositoryAccess,
            FailureView::WatermarkInvalid(_) => FailureKind::StorageOperation,
            FailureView::Storage { .. } => FailureKind::StorageOperation,
        }
    }

    /// The line that the operator reads on standard error.
    pub open spec fn diagnostic(self) -> Seq<char> {
        match self {
            FailureView::ConfigUnreadable => "Failed to read file: .gitfacade.toml"@,
            FailureView::ConfigInvalid(error) => "Invalid configuration: "@ + error.description(),
            FailureView::FacadeUnavailable => "Failed to create or open repository."@,
            FailureView::SourceUnavailable { name } => "Failed to open source repository: "@ + name,
            FailureView::WatermarkInvalid(_) => "Invalid watermark file: latest-update.txt"@,
            FailureView::Storage { detail } => "Repository operation failed: "@ + detail,
        }
    }
}

impl ConfigErrorView {
    /// What is wrong with the document, in words.
    pub open spec fn description(self) -> Seq<char> {
        match self {
            ConfigErrorView::Syntax { message } => message,
            ConfigErrorView::MissingRepo => "missing key `repo`"@,
            ConfigErrorView::RepoNotText => "`repo` is not a string"@,
            ConfigErrorView::MissingRepos => "missing key `repos`"@,
            ConfigErrorView::ReposNotTable => "`repos` is not a table"@,
            ConfigErrorView::SourceNotText { name } => "location is not a string: "@ + name,
        }
    }
}

impl ConfigError {
    pub fn description(&self) -> (text: String)
        ensures
            text@ == self@.description(),
    {
        match self {
            ConfigError::Syntax { message } => message.clone(),
            ConfigError::MissingRepo => String::from_str("missing key `repo`"),
            ConfigError::RepoNotText => String::from_str("`repo` is not a string"),
            ConfigError::MissingRepos => String::from_str("missing key `repos`"),
            ConfigError::ReposNotTable => String::from_str("`repos` is not a table"),
            ConfigError::SourceNotText { name } => String::from_str(
                "location is not a string: ",
            ).concat(name.as_str()),
        }
    }
}

impl Failure {
    pub fn kind(&self) -> (kind: FailureKind)
        ensures
            kind == self@.kind(),
    {
        match self {
            Failure::ConfigUnreadable => FailureKind::Configuration,
            Failure::ConfigInvalid(_) => FailureKind::Configuration,
            Failure::FacadeUnavailable => FailureKind::RepositoryAccess,
            Failure::SourceUnavailable { .. } => FailureKind::RepositoryAccess,
            Failure::WatermarkInvalid(_) => FailureKind::StorageOperation,
            Failure::Storage { .. } => FailureKind::StorageOperation,
        }
    }

    /// The status with which the process ends: 1, whatever failed.
    pub fn exit_code(&self) -> (code: i32)
        ensures
            code == 1,
    {
        1
    }

    pub fn diagnostic(&self) -> (text: String)
        ensures
            text@ == self@.diagnostic(),
    {
        match self {
            Failure::ConfigUnreadable => String::from_str("Failed to read file: .gitfacade.toml"),
            Failure::ConfigInvalid(error) => String::from_str("Invalid configuration: ").concat(
                error.description().as_str(),
            ),
            Failure::FacadeUnavailable => String::from_str("Failed to create or open repository."),
            Failure::SourceUnavailable { name } => String::from_str(
                "Failed to open source repository: ",
            ).concat(name.as_str()),
            Failure::WatermarkInvalid(_) => String::from_str(
                "Invalid watermark file: latest-update.txt",
            ),
            Failure::Storage { detail } => String::from_str("Repository operation failed: ").concat(
                detail.as_str(),
            ),
        }
    }
}

} // verus!
