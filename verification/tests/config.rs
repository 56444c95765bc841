use gitfacade::config::{
    config_file, config_from_fields, parse_config, Config, ConfigError, Field, Source,
};

fn source(name: &str, location: &str) -> Source {
    Source { name: name.to_string(), location: location.to_string() }
}

fn text(key: &str, value: &str) -> (String, Field) {
    (key.to_string(), Field::Text(value.to_string()))
}

fn table(key: &str, entries: Vec<(&str, Option<&str>)>) -> (String, Field) {
    let entries = entries
        .into_iter()
        .map(|(name, at)| (name.to_string(), at.map(|s| s.to_string())))
        .collect();
    (key.to_string(), Field::Table(entries))
}

#[test]
fn config_file_has_its_fixed_name() {
    assert_eq!(config_file(), ".gitfacade.toml");
}

#[test]
fn parses_a_configuration() {
    let parsed = parse_config("repo = \"/srv/facade\"\n\n[repos]\nalpha = \"/srv/alpha\"\nbeta = \"/srv/beta\"\n");
    assert_eq!(
        parsed,
        Ok(Config {
            repo: "/srv/facade".to_string(),
            sources: vec![source("alpha", "/srv/alpha"), source("beta", "/srv/beta")],
        })
    );
}

#[test]
fn sources_come_in_the_order_of_the_parsed_table() {
    let parsed = parse_config("repo = \"f\"\n[repos]\nzeta = \"z\"\nalpha = \"a\"\nmid = \"m\"\n").unwrap();
    assert_eq!(
        parsed.sources,
        vec![source("alpha", "a"), source("mid", "m"), source("zeta", "z")]
    );
}

#[test]
fn parses_an_inline_table_and_other_keys() {
    let parsed = parse_config("title = 1\nrepos = { one = \"1\" }\nrepo = 'f'\n");
    assert_eq!(
        parsed,
        Ok(Config { repo: "f".to_string(), sources: vec![source("one", "1")] })
    );
}

#[test]
fn parses_a_configuration_without_sources() {
    let parsed = parse_config("repo = \"f\"\n[repos]\n");
    assert_eq!(parsed, Ok(Config { repo: "f".to_string(), sources: Vec::new() }));
}

#[test]
fn malformed_text_is_a_syntax_error() {
    assert!(matches!(parse_config("repo = "), Err(ConfigError::Syntax { .. })));
    assert!(matches!(parse_config("[repos\n"), Err(ConfigError::Syntax { .. })));
    assert!(matches!(parse_config("repo = \"a\"\nrepo = \"b\"\n"), Err(ConfigError::Syntax { .. })));
}

#[test]
fn a_syntax_error_carries_the_parsers_message() {
    match parse_config("repo = ") {
        Err(ConfigError::Syntax { message }) => assert!(!message.is_empty()),
        other => panic!("unexpected outcome: {:?}", other),
    }
}

#[test]
fn missing_repo_is_reported() {
    assert_eq!(parse_config(""), Err(ConfigError::MissingRepo));
    assert_eq!(parse_config("[repos]\na = \"x\"\n"), Err(ConfigError::MissingRepo));
}

#[test]
fn repo_that_is_no_string_is_reported() {
    assert_eq!(parse_config("repo = 5\n[repos]\n"), Err(ConfigError::RepoNotText));
    assert_eq!(parse_config("[repo]\na = 1\n"), Err(ConfigError::RepoNotText));
    assert_eq!(parse_config("repo = [\"a\"]\n"), Err(ConfigError::RepoNotText));
}

#[test]
fn missing_repos_is_reported() {
    assert_eq!(parse_config("repo = \"f\"\n"), Err(ConfigError::MissingRepos));
}

#[test]
fn repos_that_is_no_table_is_reported() {
    assert_eq!(parse_config("repo = \"f\"\nrepos = \"x\"\n"), Err(ConfigError::ReposNotTable));
    assert_eq!(parse_config("repo = \"f\"\nrepos = [\"x\"]\n"), Err(ConfigError::ReposNotTable));
    assert_eq!(parse_config("repo = \"f\"\nrepos = true\n"), Err(ConfigError::ReposNotTable));
}

#[test]
fn a_location_that_is_no_string_is_reported_by_name() {
    assert_eq!(
        parse_config("repo = \"f\"\n[repos]\nalpha = \"a\"\nbeta = 7\ngamma = false\n"),
        Err(ConfigError::SourceNotText { name: "beta".to_string() })
    );
    assert_eq!(
        parse_config("repo = \"f\"\n[repos.nested]\npath = \"a\"\n"),
        Err(ConfigError::SourceNotText { name: "nested".to_string() })
    );
}

#[test]
fn repo_is_checked_before_repos() {
    assert_eq!(parse_config("repo = 1\nrepos = 2\n"), Err(ConfigError::RepoNotText));
    assert_eq!(parse_config("repos = 2\n"), Err(ConfigError::MissingRepo));
}

#[test]
fn fields_give_the_configuration() {
    let fields = vec![
        text("repo", "/f"),
        table("repos", vec![("b", Some("/b")), ("a", Some("/a"))]),
    ];
    assert_eq!(
        config_from_fields(&fields),
        Ok(Config { repo: "/f".to_string(), sources: vec![source("b", "/b"), source("a", "/a")] })
    );
}

#[test]
fn the_first_field_under_a_key_counts() {
    let fields = vec![
        ("other".to_string(), Field::Other),
        text("repo", "first"),
        text("repo", "second"),
        table("repos", vec![("a", Some("1"))]),
        table("repos", vec![("b", None)]),
    ];
    assert_eq!(
        config_from_fields(&fields),
        Ok(Config { repo: "first".to_string(), sources: vec![source("a", "1")] })
    );
}

#[test]
fn fields_report_each_error() {
    assert_eq!(config_from_fields(&Vec::new()), Err(ConfigError::MissingRepo));
    assert_eq!(
        config_from_fields(&vec![("repo".to_string(), Field::Other)]),
        Err(ConfigError::RepoNotText)
    );
    assert_eq!(
        config_from_fields(&vec![table("repo", vec![])]),
        Err(ConfigError::RepoNotText)
    );
    assert_eq!(config_from_fields(&vec![text("repo", "f")]), Err(ConfigError::MissingRepos));
    assert_eq!(
        config_from_fields(&vec![text("repo", "f"), text("repos", "x")]),
        Err(ConfigError::ReposNotTable)
    );
    assert_eq!(
        config_from_fields(&vec![text("repo", "f"), ("repos".to_string(), Field::Other)]),
        Err(ConfigError::ReposNotTable)
    );
    assert_eq!(
        config_from_fields(&vec![
            text("repo", "f"),
            table("repos", vec![("a", Some("1")), ("b", None), ("c", None)]),
        ]),
        Err(ConfigError::SourceNotText { name: "b".to_string() })
    );
}
