use gitfacade::config::ConfigError;
use gitfacade::failure::{Failure, FailureKind};
use gitfacade::watermark::WatermarkError;

#[test]
fn unreadable_configuration_has_its_diagnostic() {
    let f = Failure::ConfigUnreadable;
    assert_eq!(f.diagnostic(), "Failed to read file: .gitfacade.toml");
    assert_eq!(f.exit_code(), 1);
    assert_eq!(f.kind(), FailureKind::Configuration);
}

#[test]
fn unavailable_facade_has_its_diagnostic() {
    let f = Failure::FacadeUnavailable;
    assert_eq!(f.diagnostic(), "Failed to create or open repository.");
    assert_eq!(f.exit_code(), 1);
    assert_eq!(f.kind(), FailureKind::RepositoryAccess);
}

#[test]
fn invalid_configuration_says_what_is_wrong() {
    let cases = vec![
        (ConfigError::Syntax { message: "expected a value".to_string() }, "Invalid configuration: expected a value"),
        (ConfigError::MissingRepo, "Invalid configuration: missing key `repo`"),
        (ConfigError::RepoNotText, "Invalid configuration: `repo` is not a string"),
        (ConfigError::MissingRepos, "Invalid configuration: missing key `repos`"),
        (ConfigError::ReposNotTable, "Invalid configuration: `repos` is not a table"),
        (
            ConfigError::SourceNotText { name: "beta".to_string() },
            "Invalid configuration: location is not a string: beta",
        ),
    ];
    for (error, expected) in cases {
        let f = Failure::ConfigInvalid(error);
        assert_eq!(f.diagnostic(), expected);
        assert_eq!(f.kind(), FailureKind::Configuration);
        assert_eq!(f.exit_code(), 1);
    }
}

#[test]
fn config_errors_describe_themselves() {
    assert_eq!(ConfigError::MissingRepo.description(), "missing key `repo`");
    assert_eq!(ConfigError::Syntax { message: "m".to_string() }.description(), "m");
    assert_eq!(
        ConfigError::SourceNotText { name: "x".to_string() }.description(),
        "location is not a string: x"
    );
}

#[test]
fn unavailable_source_is_named() {
    let f = Failure::SourceUnavailable { name: "alpha".to_string() };
    assert_eq!(f.diagnostic(), "Failed to open source repository: alpha");
    assert_eq!(f.kind(), FailureKind::RepositoryAccess);
    assert_eq!(f.exit_code(), 1);
}

#[test]
fn invalid_watermark_is_a_storage_failure() {
    let f = Failure::WatermarkInvalid(WatermarkError::BadOffset);
    assert_eq!(f.diagnostic(), "Invalid watermark file: latest-update.txt");
    assert_eq!(f.kind(), FailureKind::StorageOperation);
    assert_eq!(f.exit_code(), 1);
}

#[test]
fn storage_failure_carries_its_detail() {
    let f = Failure::Storage { detail: "cannot write tree".to_string() };
    assert_eq!(f.diagnostic(), "Repository operation failed: cannot write tree");
    assert_eq!(f.kind(), FailureKind::StorageOperation);
    assert_eq!(f.exit_code(), 1);
}
