//! Configuration: files, the environment, and the providers that they make.

use iris::audit::{AuditAction, AuditEvent};
use iris::config::registry::{
    config_source, default_config_paths, providers_from_config, scope_event, tag_contacts,
    tag_threads, BuiltProvider, ConfigSource,
};
use iris::config::selection::{
    parse_ids, CANONICAL_TELEGRAM_BOT_TOKEN_ENV, LEGACY_TELEGRAM_BOT_TOKEN_ENV,
};
use iris::config::{
    valid_identifier, ConfigError, EnvValue, Environment, IngestConfig, IrisConfig, ProviderConfig,
    SecretValue, ENABLED_PROVIDERS_ENV,
};
use iris::ids::Uuid;
use iris::json::Json;
use iris::maps::StringMap;
use iris::mock::MockProvider;
use iris::time::Timestamp;

fn secret(value: &toml::Value) -> SecretValue {
    match value {
        toml::Value::String(text) => SecretValue::Inline(text.clone()),
        other => SecretValue::FromEnv {
            env: other["env"].as_str().expect("a variable").to_owned(),
        },
    }
}

fn secrets(value: Option<&toml::Value>) -> StringMap<SecretValue> {
    let mut map = StringMap::new();
    for (key, value) in value.and_then(toml::Value::as_table).into_iter().flatten() {
        map.insert(key.clone(), secret(value));
    }
    map
}

fn provider(value: &toml::Value) -> ProviderConfig {
    ProviderConfig {
        enabled: value.get("enabled").and_then(toml::Value::as_bool).unwrap_or(true),
        selected: false,
        credentials: secrets(value.get("credentials")),
        instances: providers(value.get("instances")),
    }
}

fn providers(value: Option<&toml::Value>) -> Vec<(String, ProviderConfig)> {
    let mut found: Vec<(String, ProviderConfig)> = value
        .and_then(toml::Value::as_table)
        .into_iter()
        .flatten()
        .map(|(key, value)| (key.clone(), provider(value)))
        .collect();
    found.sort_by(|a, b| a.0.cmp(&b.0));
    found
}

/// Reads a configuration the way the file loader does.
fn from_toml(text: &str) -> Result<IrisConfig, ConfigError> {
    let value: toml::Value = toml::from_str(text).expect("TOML text");
    let ingest = match value.get("ingest") {
        None => IngestConfig::default(),
        Some(ingest) => IngestConfig {
            sources: match ingest.get("sources").and_then(toml::Value::as_array) {
                Some(sources) => sources
                    .iter()
                    .map(|source| source.as_str().expect("a source").to_owned())
                    .collect(),
                None => IngestConfig::default().sources,
            },
            secrets: secrets(ingest.get("secrets")),
        },
    };
    let config = IrisConfig { providers: providers(value.get("providers")), ingest };
    config.validate_provider_identifiers()?;
    Ok(config)
}

fn environment(variables: &[(&str, &str)]) -> Environment {
    let mut environment = Environment::new();
    for (name, value) in variables {
        environment.variables.insert((*name).to_owned(), EnvValue::Text((*value).to_owned()));
    }
    environment
}

fn ids(config: &IrisConfig, environment: &Environment) -> Vec<String> {
    providers_from_config(config, environment)
        .expect("registry builds")
        .into_iter()
        .map(|provider| provider.id)
        .collect()
}

#[test]
fn parses_enabled_provider_with_env_secret() {
    let config = from_toml(
        r#"
[providers.mock]
enabled = true

[providers.mock.credentials]
token = { env = "IRIS_TEST_TOKEN" }
mode = "development"
"#,
    )
    .expect("valid config");

    assert_eq!(config.providers[0].0, "mock");
    assert!(config.providers[0].1.enabled);
    assert_eq!(
        config.providers[0].1.credentials.get("token"),
        Some(&SecretValue::FromEnv { env: "IRIS_TEST_TOKEN".into() })
    );
    let token = config.providers[0].1.credentials.get("token").unwrap();
    let resolved = token.resolve(&environment(&[("IRIS_TEST_TOKEN", "t")])).unwrap();
    assert_eq!(resolved, "t");
}

#[test]
fn disabled_providers_are_not_registered() {
    let config = from_toml(
        r"
[providers.mock]
enabled = false
",
    )
    .expect("valid config");
    assert!(ids(&config, &environment(&[])).is_empty());
}

#[test]
fn empty_explicit_config_registers_no_providers() {
    assert!(ids(&IrisConfig::default(), &environment(&[])).is_empty());
}

#[test]
fn ingest_configuration_defaults_and_resolves_per_source_secrets() {
    let config = from_toml(
        r#"
[ingest]
sources = ["alpha", "beta"]

[ingest.secrets]
alpha = "alpha-secret"
beta = "beta-secret"
"#,
    )
    .expect("valid config");
    assert_eq!(config.ingest.sources, ["alpha", "beta"]);
    assert_eq!(config.resolved_ingest_secrets(&environment(&[])).len(), 2);
    assert_eq!(IrisConfig::default().ingest.sources, ["herdr"]);
}

#[test]
fn env_backed_secret_reports_missing_variable() {
    let error = SecretValue::FromEnv { env: "IRIS_TEST_SECRET_DOES_NOT_EXIST".into() }
        .resolve(&environment(&[]))
        .expect_err("missing env value should fail");
    assert!(error.describe().contains("IRIS_TEST_SECRET_DOES_NOT_EXIST"));
}

#[test]
fn builds_telegram_provider_from_bot_token() {
    let config = from_toml(
        r#"
[providers.telegram]
enabled = true

[providers.telegram.credentials]
bot_token = "123:abc"
"#,
    )
    .expect("valid config");
    let providers = providers_from_config(&config, &environment(&[])).expect("registry builds");
    assert_eq!(providers.len(), 1);
    assert_eq!(providers[0].id, "telegram");
    assert!(matches!(providers[0].provider, BuiltProvider::Telegram(_)));
}

fn bot_token(variables: &[(&str, &str)]) -> (String, Vec<String>) {
    let environment = environment(variables);
    let mut config = IrisConfig::default();
    config.apply_env_overrides(&environment).expect("env applies");
    let resolved = config.resolved_enabled_providers(&environment).expect("provider resolves");
    let token = resolved[0].credentials.get_text("bot_token").expect("a token").clone();
    let ids = ids(&config, &environment);
    (token, ids)
}

#[test]
fn legacy_telegram_token_env_builds_default_provider() {
    let (token, ids) = bot_token(&[
        (ENABLED_PROVIDERS_ENV, "telegram"),
        (LEGACY_TELEGRAM_BOT_TOKEN_ENV, "legacy-token"),
    ]);
    assert_eq!(token, "legacy-token");
    assert_eq!(ids[0], "telegram");
}

#[test]
fn canonical_telegram_token_env_builds_default_provider() {
    let (token, _) = bot_token(&[
        (ENABLED_PROVIDERS_ENV, "telegram"),
        (CANONICAL_TELEGRAM_BOT_TOKEN_ENV, "canonical-token"),
    ]);
    assert_eq!(token, "canonical-token");
}

#[test]
fn canonical_telegram_token_env_wins_over_legacy() {
    let (token, _) = bot_token(&[
        (ENABLED_PROVIDERS_ENV, "telegram"),
        (LEGACY_TELEGRAM_BOT_TOKEN_ENV, "legacy-token"),
        (CANONICAL_TELEGRAM_BOT_TOKEN_ENV, "canonical-token"),
    ]);
    assert_eq!(token, "canonical-token");
}

#[test]
fn legacy_telegram_token_env_does_not_overlay_unrelated_provider() {
    let environment = environment(&[
        (ENABLED_PROVIDERS_ENV, "mock"),
        (LEGACY_TELEGRAM_BOT_TOKEN_ENV, "legacy-token"),
    ]);
    let mut config = IrisConfig::default();
    config.apply_env_overrides(&environment).expect("env applies");
    let resolved = config.resolved_enabled_providers(&environment).expect("provider resolves");
    assert_eq!(resolved.len(), 1);
    assert_eq!(resolved[0].id, "mock");
    assert!(resolved[0].credentials.is_empty());
}

#[test]
fn builds_email_provider_from_credentials() {
    let config = from_toml(
        r#"
[providers.email]
enabled = true

[providers.email.credentials]
imap_host = "imap.example.com"
smtp_host = "smtp.example.com"
username = "alice@example.com"
password = "app-password"
from = "alice@example.com"
"#,
    )
    .expect("valid config");
    assert_eq!(ids(&config, &environment(&[])), ["email"]);
}

#[test]
fn resolves_default_and_named_email_instances_without_type_inference() {
    let config = from_toml(
        r#"
[providers.email]
enabled = true
[providers.email.credentials]
username = "default@example.com"

[providers.email.instances.ops-codefold]
enabled = true
[providers.email.instances.ops-codefold.credentials]
username = "ops@example.com"
"#,
    )
    .expect("valid config");

    let resolved =
        config.resolved_enabled_providers(&environment(&[])).expect("providers resolve");
    assert_eq!(resolved.len(), 2);
    assert_eq!(resolved[0].id, "email");
    assert_eq!(resolved[0].provider_type, "email");
    assert_eq!(resolved[1].id, "email.ops-codefold");
    assert_eq!(resolved[1].provider_type, "email");
    assert_eq!(
        resolved[1].credentials.get_text("username").map(String::as_str),
        Some("ops@example.com")
    );
}

#[test]
fn rejects_invalid_instance_identifiers() {
    let error = from_toml(
        r#"
[providers.email.instances."ops_codefold"]
enabled = true
"#,
    )
    .expect_err("underscore must be rejected during TOML parsing");
    assert!(error.describe().contains("invalid provider instance"));
}

#[test]
fn builds_named_instances_with_distinct_runtime_ids() {
    let config = from_toml(
        r#"
[providers.email.instances.ops-codefold.credentials]
imap_host = "imap.ops.example.com"
smtp_host = "smtp.ops.example.com"
username = "ops@example.com"
password = "app-password"
from = "ops@example.com"

[providers.email.instances.support-codefold.credentials]
imap_host = "imap.support.example.com"
smtp_host = "smtp.support.example.com"
username = "support@example.com"
password = "app-password"
from = "support@example.com"
"#,
    )
    .expect("valid config");

    let providers = providers_from_config(&config, &environment(&[])).expect("registry builds");
    let ids: Vec<_> = providers.iter().map(|provider| provider.id.as_str()).collect();
    assert_eq!(ids, ["email.ops-codefold", "email.support-codefold"]);
    assert!(providers
        .iter()
        .all(|provider| matches!(provider.provider, BuiltProvider::Email(_))));
}

#[test]
fn named_mock_instances_attribute_threads_and_contacts() {
    let config = from_toml(
        r"
[providers.mock.instances.alpha]
[providers.mock.instances.beta]
",
    )
    .expect("valid config");
    let providers = providers_from_config(&config, &environment(&[])).expect("registry builds");
    assert_eq!(providers.len(), 2);
    for provider in providers {
        let instance = provider.id;
        let mock = MockProvider::new();
        let id = Uuid { value: 1 };
        let now = Timestamp::epoch();
        let threads = tag_threads(mock.list_threads(id, now, Some(1)), &instance);
        let contacts = tag_contacts(mock.list_contacts(id), &instance);
        assert_eq!(threads[0].provider_instance.as_deref(), Some(instance.as_str()));
        assert_eq!(contacts[0].provider_instance.as_deref(), Some(instance.as_str()));
    }
}

#[test]
fn named_env_selection_disables_default_and_unselected_instances() {
    let environment = environment(&[
        (ENABLED_PROVIDERS_ENV, "email.ops-codefold"),
        ("IRIS_EMAIL__OPS_CODEFOLD__USERNAME", "ops@example.com"),
    ]);
    let mut config = from_toml(
        r#"
[providers.email.credentials]
username = "default@example.com"
[providers.email.instances.ops-codefold.credentials]
username = "configured-ops@example.com"
[providers.email.instances.support-codefold.credentials]
username = "support@example.com"
"#,
    )
    .expect("valid config");
    config.apply_env_overrides(&environment).expect("env applies");
    let resolved = config.resolved_enabled_providers(&environment).expect("providers resolve");
    assert_eq!(resolved.len(), 1);
    assert_eq!(resolved[0].id, "email.ops-codefold");
    assert_eq!(
        resolved[0].credentials.get_text("username").map(String::as_str),
        Some("ops@example.com")
    );
}

#[test]
fn named_env_selection_creates_no_default_instance() {
    let environment = environment(&[
        (ENABLED_PROVIDERS_ENV, "email.ops-codefold"),
        ("IRIS_EMAIL_USERNAME", "legacy-default@example.com"),
        ("IRIS_EMAIL__OPS_CODEFOLD__USERNAME", "ops@example.com"),
    ]);
    let mut config = IrisConfig::default();
    config.apply_env_overrides(&environment).expect("env applies");
    let resolved = config.resolved_enabled_providers(&environment).expect("providers resolve");
    assert_eq!(resolved.len(), 1);
    assert_eq!(resolved[0].id, "email.ops-codefold");
    assert_eq!(
        resolved[0].credentials.get_text("username").map(String::as_str),
        Some("ops@example.com")
    );
}

#[test]
fn env_selection_of_a_default_and_a_named_instance_gives_both() {
    let environment = environment(&[(ENABLED_PROVIDERS_ENV, "mock,mock.alpha")]);
    let mut config = IrisConfig::default();
    config.apply_env_overrides(&environment).expect("env applies");
    assert_eq!(ids(&config, &environment), vec!["mock".to_owned(), "mock.alpha".to_owned()]);
    let mut config = from_toml("[providers.mock.instances.beta]\n").expect("valid config");
    config.apply_env_overrides(&environment).expect("env applies");
    assert_eq!(ids(&config, &environment), vec!["mock".to_owned(), "mock.alpha".to_owned()]);
}

#[test]
fn a_parent_of_named_instances_is_no_instance_itself() {
    let environment = environment(&[]);
    let config = from_toml("[providers.mock.instances.alpha]\n").expect("valid config");
    assert_eq!(ids(&config, &environment), vec!["mock.alpha".to_owned()]);
}

#[test]
fn rejects_invalid_identifiers_without_env_overlays() {
    let error = from_toml(
        r#"
[providers.email.instances."ops_codefold"]
enabled = true
"#,
    )
    .expect_err("TOML loading must validate identifiers");
    assert!(error.describe().contains("invalid provider instance"));
}

#[test]
fn builds_sms_provider_from_ssh_host() {
    let config = from_toml(
        r#"
[providers.sms]
enabled = true

[providers.sms.credentials]
ssh_host = "termux-phone"
self_number = "+1 575 555 0199"
"#,
    )
    .expect("valid config");
    assert_eq!(ids(&config, &environment(&[])), ["sms"]);
}

#[test]
fn unknown_provider_types_are_refused() {
    let config = from_toml("[providers.carrier]\nenabled = true\n").expect("valid config");
    let error = providers_from_config(&config, &environment(&[])).expect_err("unknown type");
    assert!(error.describe().contains("carrier"), "{error:?}");
}

#[test]
fn blank_selections_are_refused() {
    let mut config = IrisConfig::default();
    let error = config
        .apply_env_overrides(&environment(&[(ENABLED_PROVIDERS_ENV, " , ")]))
        .expect_err("an empty selection");
    assert!(error.describe().contains(ENABLED_PROVIDERS_ENV), "{error:?}");
    assert_eq!(parse_ids(" a , ,b"), ["a", "b"]);
    assert!(valid_identifier("ops-codefold"));
    assert!(!valid_identifier(""));
}

#[test]
fn variables_that_are_no_text_are_reported() {
    let mut environment = environment(&[]);
    environment
        .variables
        .insert("IRIS_TEST_SECRET".into(), EnvValue::NotUnicode("\"\\xFF\"".into()));
    let error = SecretValue::FromEnv { env: "IRIS_TEST_SECRET".into() }
        .resolve(&environment)
        .expect_err("not a text");
    assert!(error.describe().contains("IRIS_TEST_SECRET"), "{error:?}");
}

#[test]
fn an_explicit_config_path_is_required() {
    let candidates = default_config_paths(Some("/home/ada"));
    assert_eq!(candidates, ["iris.toml", "/home/ada/.config/iris/config.toml"]);
    let named = config_source(Some("/etc/iris.toml".into()), &candidates, &vec![true, true]);
    assert_eq!(named, ConfigSource::File("/etc/iris.toml".into()));
    let second = config_source(None, &candidates, &vec![false, true]);
    assert_eq!(second, ConfigSource::File("/home/ada/.config/iris/config.toml".into()));
    let none = config_source(None, &candidates, &vec![false, false]);
    assert_eq!(none, ConfigSource::Default);
    assert!(IrisConfig::default().wants_mock(false));
    assert!(!IrisConfig::default().wants_mock(true));
}

#[test]
fn events_are_scoped_to_their_instance() {
    let event = AuditEvent {
        action: AuditAction::Send,
        provider: "mock".into(),
        source_id: Some("thread-1".into()),
        timestamp: Timestamp::epoch(),
        metadata: Json::Null,
    };
    let scoped = scope_event(event, "mock.ops");
    assert_eq!(scoped.provider, "mock.ops");
    assert_eq!(scoped.source_id.as_deref(), Some("thread-1"));
}
