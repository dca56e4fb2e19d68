//! What the environment changes in a configuration: which providers are enabled, and where their
//! credentials come from.

use vstd::prelude::*;
use crate::config::{
    all_orderly, config_views, identifier, is_set, lemma_instances, name_fault, orderly,
    valid_identifier, variable_text, ConfigError, EnvValue, Environment, IrisConfig,
    ProviderConfig, ProviderView, SecretValue, SecretView, ENABLED_PROVIDERS_ENV,
};
use crate::error::prefixed;
use crate::maps::{
    find, holds, lemma_found, lemma_placed, lemma_put, lemma_same_keys, lemma_value_views,
    lemma_with_value, ordered, pairs_of, placed, put, take_value, value_of, value_views, with_value,
    StringMap,
};
use crate::text::{
    ascii_uppercase, blank, first_index, lemma_first_index_unique, replace_char, replaced,
    split_char, split_on, split_once, str_eq,
    trim, trimmed, uppered_ascii, view_opt, views,
};

verus! {

/// The deprecated variable of the Telegram bot token.
pub const LEGACY_TELEGRAM_BOT_TOKEN_ENV: &'static str = "TELEGRAM_BOT_TOKEN";

/// The variable of the Telegram bot token.
pub const CANONICAL_TELEGRAM_BOT_TOKEN_ENV: &'static str = "IRIS_TELEGRAM_BOT_TOKEN";

/// The variables of an environment.
pub type Variables = Seq<(Seq<char>, EnvValue)>;

/// Providers under their names.
pub type Providers = Seq<(Seq<char>, ProviderView)>;

/// The credentials that the environment can set for a provider type, with the variables of the
/// default instance.
pub open spec fn env_fields(provider_type: Seq<char>) -> Seq<(Seq<char>, Seq<char>)> {
    if provider_type == "mock"@ {
        seq![("mode"@, "IRIS_MOCK_MODE"@)]
    } else if provider_type == "telegram"@ {
        seq![("bot_token"@, "IRIS_TELEGRAM_BOT_TOKEN"@)]
    } else if provider_type == "email"@ {
        seq![
            ("imap_host"@, "IRIS_EMAIL_IMAP_HOST"@),
            ("imap_port"@, "IRIS_EMAIL_IMAP_PORT"@),
            ("smtp_host"@, "IRIS_EMAIL_SMTP_HOST"@),
            ("smtp_port"@, "IRIS_EMAIL_SMTP_PORT"@),
            ("username"@, "IRIS_EMAIL_USERNAME"@),
            ("password"@, "IRIS_EMAIL_PASSWORD"@),
            ("mailbox"@, "IRIS_EMAIL_MAILBOX"@),
            ("from"@, "IRIS_EMAIL_FROM"@),
            ("page_size"@, "IRIS_EMAIL_PAGE_SIZE"@),
            ("max_messages"@, "IRIS_EMAIL_MAX_MESSAGES"@),
        ]
    } else if provider_type == "sms"@ {
        seq![
            ("ssh_host"@, "IRIS_SMS_SSH_HOST"@),
            ("ssh_command"@, "IRIS_SMS_SSH_COMMAND"@),
            ("self_number"@, "IRIS_SMS_SELF_NUMBER"@),
        ]
    } else {
        seq![]
    }
}

/// The views of pairs of texts.
pub open spec fn pair_views(pairs: Seq<(&'static str, &'static str)>) -> Seq<(Seq<char>, Seq<char>)> {
    pairs.map_values(|pair: (&'static str, &'static str)| (pair.0@, pair.1@))
}

/// The credentials that the environment can set for a provider type, with the variables of the
/// default instance.
pub fn provider_env_fields(provider_type: &str) -> (r: Vec<(&'static str, &'static str)>)
    ensures
        pair_views(r@) == env_fields(provider_type@),
{
    let mut fields: Vec<(&'static str, &'static str)> = Vec::new();
    if str_eq(provider_type, "mock") {
        fields.push(("mode", "IRIS_MOCK_MODE"));
    } else if str_eq(provider_type, "telegram") {
        fields.push(("bot_token", "IRIS_TELEGRAM_BOT_TOKEN"));
    } else if str_eq(provider_type, "email") {
        fields.push(("imap_host", "IRIS_EMAIL_IMAP_HOST"));
        fields.push(("imap_port", "IRIS_EMAIL_IMAP_PORT"));
        fields.push(("smtp_host", "IRIS_EMAIL_SMTP_HOST"));
        fields.push(("smtp_port", "IRIS_EMAIL_SMTP_PORT"));
        fields.push(("username", "IRIS_EMAIL_USERNAME"));
        fields.push(("password", "IRIS_EMAIL_PASSWORD"));
        fields.push(("mailbox", "IRIS_EMAIL_MAILBOX"));
        fields.push(("from", "IRIS_EMAIL_FROM"));
        fields.push(("page_size", "IRIS_EMAIL_PAGE_SIZE"));
        fields.push(("max_messages", "IRIS_EMAIL_MAX_MESSAGES"));
    } else if str_eq(provider_type, "sms") {
        fields.push(("ssh_host", "IRIS_SMS_SSH_HOST"));
        fields.push(("ssh_command", "IRIS_SMS_SSH_COMMAND"));
        fields.push(("self_number", "IRIS_SMS_SELF_NUMBER"));
    }
    assert(pair_views(fields@) =~= env_fields(provider_type@));
    fields
}

/// The variable of a credential: its own for the default instance, and for a named one a name made
/// of the type, the instance and the field.
pub open spec fn variable_name(
    provider_type: Seq<char>,
    instance: Option<Seq<char>>,
    field: Seq<char>,
    default_variable: Seq<char>,
) -> Seq<char> {
    match instance {
        None => default_variable,
        Some(instance) => "IRIS_"@ + uppered_ascii(provider_type) + "__"@ + uppered_ascii(
            replaced(instance, '-', '_'),
        ) + "__"@ + uppered_ascii(field),
    }
}

fn env_variable(provider_type: &str, instance: Option<&str>, field: &str, default_variable: &str) -> (r:
    String)
    ensures
        r@ == variable_name(
            provider_type@,
            match instance {
                Some(instance) => Some(instance@),
                None => None,
            },
            field@,
            default_variable@,
        ),
{
    match instance {
        None => default_variable.to_owned(),
        Some(instance) => {
            let mut name = prefixed("IRIS_", ascii_uppercase(provider_type).as_str());
            name.append("__");
            name.append(ascii_uppercase(replace_char(instance, '-', '_').as_str()).as_str());
            name.append("__");
            name.append(ascii_uppercase(field).as_str());
            name
        },
    }
}

/// The credentials with those that the environment sets put over them.
pub open spec fn with_fields(
    credentials: Seq<(Seq<char>, SecretView)>,
    fields: Seq<(Seq<char>, Seq<char>)>,
    provider_type: Seq<char>,
    instance: Option<Seq<char>>,
    variables: Variables,
) -> Seq<(Seq<char>, SecretView)>
    decreases fields.len(),
{
    if fields.len() == 0 {
        credentials
    } else {
        let front = with_fields(credentials, fields.drop_last(), provider_type, instance, variables);
        let (field, default_variable) = fields.last();
        let variable = variable_name(provider_type, instance, field, default_variable);
        if is_set(variables, variable) {
            put(front, field, SecretView::FromEnv { env: variable })
        } else {
            front
        }
    }
}

/// Whether the deprecated variable provides the bot token: for the default Telegram instance, and
/// only where the proper variable is absent.
pub open spec fn legacy_applies(
    provider_type: Seq<char>,
    instance: Option<Seq<char>>,
    variables: Variables,
) -> bool {
    &&& provider_type == "telegram"@
    &&& instance is None
    &&& !is_set(variables, CANONICAL_TELEGRAM_BOT_TOKEN_ENV@)
    &&& is_set(variables, LEGACY_TELEGRAM_BOT_TOKEN_ENV@)
}

/// The credentials of an instance under an environment.
pub open spec fn overlaid_credentials(
    credentials: Seq<(Seq<char>, SecretView)>,
    provider_type: Seq<char>,
    instance: Option<Seq<char>>,
    variables: Variables,
) -> Seq<(Seq<char>, SecretView)> {
    let set = with_fields(
        credentials,
        env_fields(provider_type),
        provider_type,
        instance,
        variables,
    );
    if legacy_applies(provider_type, instance, variables) {
        put(
            set,
            "bot_token"@,
            SecretView::FromEnv { env: LEGACY_TELEGRAM_BOT_TOKEN_ENV@ },
        )
    } else {
        set
    }
}

/// Puts the credentials that the environment sets over those of an instance.
pub fn apply_provider_env(
    credentials: &mut StringMap<SecretValue>,
    provider_type: &str,
    instance: Option<&str>,
    environment: &Environment,
)
    ensures
        value_views(final(credentials).pairs()) == overlaid_credentials(
            value_views(old(credentials).pairs()),
            provider_type@,
            match instance {
                Some(instance) => Some(instance@),
                None => None,
            },
            environment.variables.pairs(),
        ),
{
    let ghost given = value_views(credentials.pairs());
    let ghost named = match instance {
        Some(instance) => Some(instance@),
        None => None,
    };
    let ghost variables = environment.variables.pairs();
    let fields = provider_env_fields(provider_type);
    let ghost all = pair_views(fields@);
    let mut i: usize = 0;
    assert(all.take(0) =~= seq![]);
    while i < fields.len()
        invariant
            i <= fields@.len(),
            all == pair_views(fields@),
            named == (match instance {
                Some(instance) => Some(instance@),
                None => None,
            }),
            variables == environment.variables.pairs(),
            value_views(credentials.pairs()) == with_fields(
                given,
                all.take(i as int),
                provider_type@,
                named,
                variables,
            ),
        decreases fields@.len() - i,
    {
        proof {
            let next = all.take(i + 1);
            assert(next.drop_last() =~= all.take(i as int));
            assert(next.last() == all[i as int]);
        }
        let field = fields[i].0;
        let variable = env_variable(provider_type, instance, field, fields[i].1);
        if environment.has(variable.as_str()) {
            let secret = SecretValue::FromEnv { env: variable };
            proof {
                lemma_value_views(credentials.pairs(), field@, secret);
            }
            credentials.insert(field.to_owned(), secret);
        }
        i += 1;
    }
    assert(all.take(all.len() as int) =~= all);
    if str_eq(provider_type, "telegram") && instance.is_none() && !environment.has(
        CANONICAL_TELEGRAM_BOT_TOKEN_ENV,
    ) && environment.has(LEGACY_TELEGRAM_BOT_TOKEN_ENV) {
        let secret = SecretValue::FromEnv { env: LEGACY_TELEGRAM_BOT_TOKEN_ENV.to_owned() };
        proof {
            lemma_value_views(credentials.pairs(), "bot_token"@, secret);
        }
        credentials.insert("bot_token".to_owned(), secret);
    }
}

/// The instances of a provider under an environment.
pub open spec fn overlaid_instances(
    provider_type: Seq<char>,
    instances: Providers,
    variables: Variables,
) -> Providers {
    instances.map_values(
        |entry: (Seq<char>, ProviderView)|
            (
                entry.0,
                ProviderView {
                    credentials: overlaid_credentials(
                        entry.1.credentials,
                        provider_type,
                        Some(entry.0),
                        variables,
                    ),
                    ..entry.1
                },
            ),
    )
}

/// The providers under an environment.
pub open spec fn overlaid_providers(providers: Providers, variables: Variables) -> Providers {
    providers.map_values(
        |entry: (Seq<char>, ProviderView)|
            (
                entry.0,
                ProviderView {
                    enabled: entry.1.enabled,
                    selected: entry.1.selected,
                    credentials: overlaid_credentials(
                        entry.1.credentials,
                        entry.0,
                        None,
                        variables,
                    ),
                    instances: overlaid_instances(entry.0, entry.1.instances, variables),
                },
            ),
    )
}

/// The instances, all disabled.
pub open spec fn disabled_instances(instances: Providers) -> Providers {
    instances.map_values(
        |entry: (Seq<char>, ProviderView)|
            (entry.0, ProviderView { enabled: false, selected: false, ..entry.1 }),
    )
}

/// The providers, all disabled with their instances.
pub open spec fn disabled(providers: Providers) -> Providers {
    providers.map_values(
        |entry: (Seq<char>, ProviderView)|
            (
                entry.0,
                ProviderView {
                    enabled: false,
                    selected: false,
                    credentials: entry.1.credentials,
                    instances: disabled_instances(entry.1.instances),
                },
            ),
    )
}

/// The type that a configured id names.
pub open spec fn type_part(id: Seq<char>) -> Seq<char> {
    if id.contains('.') {
        id.take(first_index(id, '.'))
    } else {
        id
    }
}

/// The instance that a configured id names, empty for the default one.
pub open spec fn instance_part(id: Seq<char>) -> Seq<char> {
    if id.contains('.') {
        id.skip(first_index(id, '.') + 1)
    } else {
        seq![]
    }
}

/// The error of a provider id that is not valid.
pub open spec fn bad_id(what: Seq<char>, id: Seq<char>) -> Seq<char> {
    "invalid provider "@ + what + " `"@ + id + "` in "@ + ENABLED_PROVIDERS_ENV@
}

/// The providers with one enabled by its id, and what is wrong with the id.
pub open spec fn select_one(providers: Providers, id: Seq<char>) -> (Providers, Option<Seq<char>>) {
    let provider_type = type_part(id);
    let instance = instance_part(id);
    if !identifier(provider_type) {
        (providers, Some(bad_id("id"@, id)))
    } else {
        let base = match value_of(providers, provider_type) {
            Some(known) => known,
            None => ProviderView::bare(false),
        };
        if instance.len() == 0 {
            (
                with_value(providers, provider_type, ProviderView { enabled: true, selected: true, ..base }),
                None,
            )
        } else if !identifier(instance) {
            (with_value(providers, provider_type, base), Some(bad_id("instance"@, id)))
        } else {
            let known = match value_of(base.instances, instance) {
                Some(known) => known,
                None => ProviderView::bare(true),
            };
            (
                with_value(
                    providers,
                    provider_type,
                    ProviderView {
                        instances: with_value(
                            base.instances,
                            instance,
                            ProviderView { enabled: true, selected: true, ..known },
                        ),
                        ..base
                    },
                ),
                None,
            )
        }
    }
}

/// The providers with those enabled that the ids name, up to the first id that is not valid.
pub open spec fn select_all(providers: Providers, ids: Seq<Seq<char>>) -> (
    Providers,
    Option<Seq<char>>,
)
    decreases ids.len(),
{
    if ids.len() == 0 {
        (providers, None)
    } else {
        let (front, fault) = select_all(providers, ids.drop_last());
        if fault is Some {
            (front, fault)
        } else {
            select_one(front, ids.last())
        }
    }
}

/// An id that is not valid among the first ones ends the selection.
proof fn lemma_selected_prefix(providers: Providers, ids: Seq<Seq<char>>, n: int)
    requires
        0 <= n <= ids.len(),
    ensures
        select_all(providers, ids.take(n)).1 is Some ==> select_all(providers, ids) == select_all(
            providers,
            ids.take(n),
        ),
    decreases ids.len() - n,
{
    if n < ids.len() {
        lemma_selected_prefix(providers, ids, n + 1);
        assert(ids.take(n + 1).drop_last() =~= ids.take(n));
    } else {
        assert(ids.take(n) =~= ids);
    }
}

/// The pieces that are not blank, trimmed.
pub open spec fn listed_ids(pieces: Seq<Seq<char>>) -> Seq<Seq<char>>
    decreases pieces.len(),
{
    if pieces.len() == 0 {
        seq![]
    } else {
        let front = listed_ids(pieces.drop_last());
        let id = trimmed(pieces.last());
        if id.len() == 0 {
            front
        } else {
            front.push(id)
        }
    }
}

/// The providers after the selection that the environment makes, and what is wrong with it.
pub open spec fn selected(providers: Providers, variables: Variables) -> (
    Providers,
    Option<Seq<char>>,
) {
    match variable_text(variables, ENABLED_PROVIDERS_ENV@) {
        Err(_) => (providers, None),
        Ok(list) => {
            let ids = listed_ids(split_on(list, ','));
            if ids.len() == 0 {
                (
                    providers,
                    Some(ENABLED_PROVIDERS_ENV@ + " must contain at least one provider id"@),
                )
            } else {
                select_all(disabled(providers), ids)
            }
        },
    }
}

/// The providers under an environment, and what is wrong with it.
pub open spec fn overridden(providers: Providers, variables: Variables) -> (
    Providers,
    Option<Seq<char>>,
) {
    let (chosen, fault) = selected(providers, variables);
    if fault is Some {
        (chosen, fault)
    } else {
        match name_fault(chosen) {
            Some(fault) => (chosen, Some(fault)),
            None => (overlaid_providers(chosen, variables), None),
        }
    }
}

/// The ids of a comma-separated list.
pub fn parse_ids(list: &str) -> (r: Vec<String>)
    ensures
        views(r@) == listed_ids(split_on(list@, ',')),
{
    let pieces = split_char(list, ',');
    let ghost all = views(pieces@);
    let mut out: Vec<String> = Vec::new();
    let mut i: usize = 0;
    assert(all.take(0) =~= seq![]);
    assert(views(out@) =~= seq![]);
    while i < pieces.len()
        invariant
            i <= pieces@.len(),
            all == views(pieces@),
            views(out@) == listed_ids(all.take(i as int)),
        decreases pieces@.len() - i,
    {
        let ghost known = out@;
        proof {
            let next = all.take(i + 1);
            assert(next.drop_last() =~= all.take(i as int));
            assert(next.last() == pieces@[i as int]@);
        }
        let id = trim(pieces[i].as_str());
        if !id.as_str().is_empty() {
            let ghost added = id@;
            out.push(id);
            assert(views(out@) =~= views(known).push(added));
        }
        i += 1;
    }
    assert(all.take(all.len() as int) =~= all);
    out
}

fn take_config(entries: &mut Vec<(String, ProviderConfig)>, name: &str) -> (r: (
    usize,
    Option<ProviderConfig>,
))
    ensures
        r.0 == placed(config_views(old(entries)@), name@),
        r.0 <= final(entries)@.len(),
        r.1 is Some <==> holds(config_views(old(entries)@), name@),
        view_opt(r.1) == value_of(config_views(old(entries)@), name@),
        r.1 is Some ==> r.0 < old(entries)@.len() && config_views(final(entries)@) == config_views(
            old(entries)@,
        ).remove(r.0 as int),
        r.1 is None ==> final(entries)@ == old(entries)@,
{
    let ghost given = entries@;
    proof {
        lemma_placed(pairs_of(given), config_views(given), name@);
    }
    let r = take_value(entries, name);
    if r.1.is_some() {
        assert(config_views(entries@) =~= config_views(given).remove(r.0 as int));
    }
    r
}

/// Puts a configuration back at the place of its name.
fn put_config(
    entries: &mut Vec<(String, ProviderConfig)>,
    at: usize,
    name: &str,
    config: ProviderConfig,
)
    requires
        at <= old(entries)@.len(),
    ensures
        config_views(final(entries)@) == config_views(old(entries)@).insert(
            at as int,
            (name@, config@),
        ),
{
    let ghost given = entries@;
    entries.insert(at, (name.to_owned(), config));
    assert(config_views(entries@) =~= config_views(given).insert(at as int, (name@, config@)));
}

fn disable_instances(instances: Vec<(String, ProviderConfig)>) -> (r: Vec<(String, ProviderConfig)>)
    ensures
        config_views(r@) == disabled_instances(config_views(instances@)),
{
    let ghost all = config_views(instances@);
    let mut out: Vec<(String, ProviderConfig)> = Vec::new();
    for entry in it: instances
        invariant
            it.seq() == instances@,
            all == config_views(instances@),
            out@.len() == it.index(),
            forall|j: int|
                0 <= j < it.index() ==> config_views(out@)[j] == #[trigger] disabled_instances(
                    all,
                )[j],
    {
        let (name, config) = entry;
        proof {
            lemma_instances(config);
            assert(all[it.index() as int] == (name@, config@));
        }
        let changed = ProviderConfig {
            enabled: false,
            selected: false,
            credentials: config.credentials,
            instances: config.instances,
        };
        let ghost known = config_views(out@);
        proof {
            lemma_instances(changed);
        }
        out.push((name, changed));
        assert(config_views(out@) =~= known.push((name@, changed@)));
    }
    assert(config_views(out@) =~= disabled_instances(all));
    out
}

fn disable_all(providers: Vec<(String, ProviderConfig)>) -> (r: Vec<(String, ProviderConfig)>)
    ensures
        config_views(r@) == disabled(config_views(providers@)),
{
    let ghost all = config_views(providers@);
    let mut out: Vec<(String, ProviderConfig)> = Vec::new();
    for entry in it: providers
        invariant
            it.seq() == providers@,
            all == config_views(providers@),
            out@.len() == it.index(),
            forall|j: int|
                0 <= j < it.index() ==> config_views(out@)[j] == #[trigger] disabled(all)[j],
    {
        let (name, config) = entry;
        proof {
            lemma_instances(config);
            assert(all[it.index() as int] == (name@, config@));
        }
        let instances = disable_instances(config.instances);
        let changed = ProviderConfig {
            enabled: false,
            selected: false,
            credentials: config.credentials,
            instances,
        };
        let ghost known = config_views(out@);
        proof {
            lemma_instances(changed);
        }
        out.push((name, changed));
        assert(config_views(out@) =~= known.push((name@, changed@)));
    }
    assert(config_views(out@) =~= disabled(all));
    out
}

fn id_error(what: &str, id: &str) -> (r: ConfigError)
    ensures
        r@ == bad_id(what@, id@),
{
    let mut message = prefixed("invalid provider ", what);
    message.append(" `");
    message.append(id);
    message.append("` in ");
    message.append(ENABLED_PROVIDERS_ENV);
    ConfigError { message }
}

/// A fault's result over views.
pub open spec fn fault_of(r: Result<(), ConfigError>) -> Option<Seq<char>> {
    match r {
        Ok(()) => None,
        Err(error) => Some(error@),
    }
}

fn enable_instance(instances: &mut Vec<(String, ProviderConfig)>, name: &str)
    ensures
        config_views(final(instances)@) == with_value(
            config_views(old(instances)@),
            name@,
            ProviderView {
                enabled: true,
                selected: true,
                ..match value_of(config_views(old(instances)@), name@) {
                    Some(known) => known,
                    None => ProviderView::bare(true),
                }
            },
        ),
{
    let ghost given = config_views(instances@);
    let (at, known) = take_config(instances, name);
    let known = match known {
        Some(known) => known,
        None => ProviderConfig::bare(true),
    };
    let changed = ProviderConfig {
        enabled: true,
        selected: true,
        credentials: known.credentials,
        instances: known.instances,
    };
    proof {
        lemma_instances(known);
        lemma_instances(changed);
    }
    put_config(instances, at, name, changed);
    assert(config_views(instances@) =~= with_value(given, name@, changed@));
}

impl IrisConfig {
    /// Enables the provider or instance that an id names.
    pub fn enable(&mut self, id: &str) -> (r: Result<(), ConfigError>)
        ensures
            (config_views(final(self).providers@), fault_of(r)) == select_one(
                config_views(old(self).providers@),
                id@,
            ),
            final(self).ingest == old(self).ingest,
            old(self).valid() ==> final(self).valid(),
    {
        let ghost given = config_views(self.providers@);
        proof {
            if all_orderly(given) {
                lemma_selection_is_orderly(given, id@);
            }
        }
        let empty = String::new();
        assert(empty@ =~= seq![]);
        let (provider_type, instance) = match split_once(id, '.') {
            Some(parts) => parts,
            None => (id, empty.as_str()),
        };
        if !valid_identifier(provider_type) {
            return Err(id_error("id", id));
        }
        let (at, known) = take_config(&mut self.providers, provider_type);
        let base = match known {
            Some(known) => known,
            None => ProviderConfig::bare(false),
        };
        let ghost before = base@;
        proof {
            lemma_instances(base);
        }
        if instance.is_empty() {
            let changed = ProviderConfig {
                enabled: true,
                selected: true,
                credentials: base.credentials,
                instances: base.instances,
            };
            proof {
                lemma_instances(changed);
            }
            put_config(&mut self.providers, at, provider_type, changed);
            assert(config_views(self.providers@) =~= with_value(given, provider_type@, changed@));
            assert(changed@ =~= (ProviderView { enabled: true, selected: true, ..before }));
            Ok(())
        } else if !valid_identifier(instance) {
            put_config(&mut self.providers, at, provider_type, base);
            assert(config_views(self.providers@) =~= with_value(given, provider_type@, before));
            Err(id_error("instance", id))
        } else {
            let mut instances = base.instances;
            enable_instance(&mut instances, instance);
            let ghost enabled = config_views(instances@);
            let changed = ProviderConfig {
                enabled: base.enabled,
                selected: base.selected,
                credentials: base.credentials,
                instances,
            };
            proof {
                lemma_instances(changed);
            }
            put_config(&mut self.providers, at, provider_type, changed);
            assert(config_views(self.providers@) =~= with_value(given, provider_type@, changed@));
            assert(changed@ =~= (ProviderView { instances: enabled, ..before }));
            Ok(())
        }
    }

    fn select(&mut self, environment: &Environment) -> (r: Result<(), ConfigError>)
        ensures
            (config_views(final(self).providers@), fault_of(r)) == selected(
                config_views(old(self).providers@),
                environment.variables.pairs(),
            ),
            final(self).ingest == old(self).ingest,
    {
        let list = match environment.var(ENABLED_PROVIDERS_ENV) {
            Ok(list) => list,
            Err(_) => {
                return Ok(());
            },
        };
        let ids = parse_ids(list.as_str());
        if ids.len() == 0 {
            return Err(
                ConfigError {
                    message: prefixed(
                        ENABLED_PROVIDERS_ENV,
                        " must contain at least one provider id",
                    ),
                },
            );
        }
        let mut providers: Vec<(String, ProviderConfig)> = Vec::new();
        std::mem::swap(&mut providers, &mut self.providers);
        let ghost base = disabled(config_views(providers@));
        self.providers = disable_all(providers);
        let ghost all = views(ids@);
        let mut i: usize = 0;
        assert(all.take(0) =~= seq![]);
        while i < ids.len()
            invariant
                i <= ids@.len(),
                all == views(ids@),
                all.len() > 0,
                all == listed_ids(split_on(list@, ',')),
                variable_text(environment.variables.pairs(), ENABLED_PROVIDERS_ENV@) == Ok::<
                    Seq<char>,
                    Seq<char>,
                >(list@),
                base == disabled(config_views(old(self).providers@)),
                self.ingest == old(self).ingest,
                select_all(base, all.take(i as int)) == (
                    config_views(self.providers@),
                    None::<Seq<char>>,
                ),
            decreases ids@.len() - i,
        {
            proof {
                let next = all.take(i + 1);
                assert(next.drop_last() =~= all.take(i as int));
                assert(next.last() == ids@[i as int]@);
                lemma_selected_prefix(base, all, i + 1);
            }
            if let Err(error) = self.enable(ids[i].as_str()) {
                return Err(error);
            }
            i += 1;
        }
        assert(all.take(all.len() as int) =~= all);
        Ok(())
    }

    /// Apply native Iris environment configuration over this file/default config.
    ///
    /// Where the variable that selects providers is set, exactly the providers and instances that
    /// it names are enabled. Then the variables of the credentials take the place of what the
    /// configuration says.
    pub fn apply_env_overrides(&mut self, environment: &Environment) -> (r: Result<(), ConfigError>)
        ensures
            (config_views(final(self).providers@), fault_of(r)) == overridden(
                config_views(old(self).providers@),
                environment.variables.pairs(),
            ),
            final(self).ingest == old(self).ingest,
            old(self).valid() ==> final(self).valid(),
    {
        proof {
            let given = config_views(self.providers@);
            if all_orderly(given) {
                law_overrides_keep_the_order(given, environment.variables.pairs());
            }
        }
        if let Err(error) = self.select(environment) {
            return Err(error);
        }
        if let Err(error) = self.validate_provider_identifiers() {
            return Err(error);
        }
        let mut providers: Vec<(String, ProviderConfig)> = Vec::new();
        std::mem::swap(&mut providers, &mut self.providers);
        self.providers = overlay_all(providers, environment);
        Ok(())
    }
}

fn overlay_instances(
    provider_type: &str,
    instances: Vec<(String, ProviderConfig)>,
    environment: &Environment,
) -> (r: Vec<(String, ProviderConfig)>)
    ensures
        config_views(r@) == overlaid_instances(
            provider_type@,
            config_views(instances@),
            environment.variables.pairs(),
        ),
{
    let ghost all = config_views(instances@);
    let ghost variables = environment.variables.pairs();
    let mut out: Vec<(String, ProviderConfig)> = Vec::new();
    for entry in it: instances
        invariant
            it.seq() == instances@,
            all == config_views(instances@),
            variables == environment.variables.pairs(),
            out@.len() == it.index(),
            forall|j: int|
                0 <= j < it.index() ==> config_views(out@)[j] == #[trigger] overlaid_instances(
                    provider_type@,
                    all,
                    variables,
                )[j],
    {
        let (name, config) = entry;
        proof {
            lemma_instances(config);
            assert(all[it.index() as int] == (name@, config@));
        }
        let mut credentials = config.credentials;
        apply_provider_env(&mut credentials, provider_type, Some(name.as_str()), environment);
        let changed = ProviderConfig {
            enabled: config.enabled,
            selected: config.selected,
            credentials,
            instances: config.instances,
        };
        let ghost known = config_views(out@);
        proof {
            lemma_instances(changed);
        }
        out.push((name, changed));
        assert(config_views(out@) =~= known.push((name@, changed@)));
    }
    assert(config_views(out@) =~= overlaid_instances(provider_type@, all, variables));
    out
}

fn overlay_all(providers: Vec<(String, ProviderConfig)>, environment: &Environment) -> (r: Vec<
    (String, ProviderConfig),
>)
    ensures
        config_views(r@) == overlaid_providers(
            config_views(providers@),
            environment.variables.pairs(),
        ),
{
    let ghost all = config_views(providers@);
    let ghost variables = environment.variables.pairs();
    let mut out: Vec<(String, ProviderConfig)> = Vec::new();
    for entry in it: providers
        invariant
            it.seq() == providers@,
            all == config_views(providers@),
            variables == environment.variables.pairs(),
            out@.len() == it.index(),
            forall|j: int|
                0 <= j < it.index() ==> config_views(out@)[j] == #[trigger] overlaid_providers(
                    all,
                    variables,
                )[j],
    {
        let (name, config) = entry;
        proof {
            lemma_instances(config);
            assert(all[it.index() as int] == (name@, config@));
        }
        let mut credentials = config.credentials;
        apply_provider_env(&mut credentials, name.as_str(), None, environment);
        let instances = overlay_instances(name.as_str(), config.instances, environment);
        let changed = ProviderConfig {
            enabled: config.enabled,
            selected: config.selected,
            credentials,
            instances,
        };
        let ghost known = config_views(out@);
        proof {
            lemma_instances(changed);
        }
        out.push((name, changed));
        assert(config_views(out@) =~= known.push((name@, changed@)));
    }
    assert(config_views(out@) =~= overlaid_providers(all, variables));
    out
}

/// A variable that is set takes the place of what the configuration says of its credential.
pub proof fn law_set_variables_win(
    credentials: Seq<(Seq<char>, SecretView)>,
    fields: Seq<(Seq<char>, Seq<char>)>,
    provider_type: Seq<char>,
    instance: Option<Seq<char>>,
    variables: Variables,
    k: int,
)
    requires
        ordered(credentials),
        0 <= k < fields.len(),
        forall|i: int, j: int|
            0 <= i < j < fields.len() ==> (#[trigger] fields[i]).0 != (#[trigger] fields[j]).0,
    ensures
        ordered(with_fields(credentials, fields, provider_type, instance, variables)),
        find(with_fields(credentials, fields, provider_type, instance, variables), fields[k].0) == (
        if is_set(variables, variable_name(provider_type, instance, fields[k].0, fields[k].1)) {
            Some(
                SecretView::FromEnv {
                    env: variable_name(provider_type, instance, fields[k].0, fields[k].1),
                },
            )
        } else {
            find(credentials, fields[k].0)
        }),
    decreases fields.len(),
{
    let front = fields.drop_last();
    let n = fields.len() - 1;
    let before = with_fields(credentials, front, provider_type, instance, variables);
    let (field, default_variable) = fields.last();
    let variable = variable_name(provider_type, instance, field, default_variable);
    assert forall|i: int, j: int| 0 <= i < j < front.len() implies (#[trigger] front[i]).0 != (
    #[trigger] front[j]).0 by {
        assert(fields[i] == front[i] && fields[j] == front[j]);
    }
    lemma_fields_keep_order(credentials, front, provider_type, instance, variables);
    lemma_put(before, field, SecretView::FromEnv { env: variable });
    if k < n {
        assert(fields[k] == front[k]);
        law_set_variables_win(credentials, front, provider_type, instance, variables, k);
        assert(fields[k].0 != fields[n].0);
    } else {
        lemma_other_fields(credentials, front, provider_type, instance, variables, field);
    }
}

proof fn lemma_fields_keep_order(
    credentials: Seq<(Seq<char>, SecretView)>,
    fields: Seq<(Seq<char>, Seq<char>)>,
    provider_type: Seq<char>,
    instance: Option<Seq<char>>,
    variables: Variables,
)
    requires
        ordered(credentials),
    ensures
        ordered(with_fields(credentials, fields, provider_type, instance, variables)),
    decreases fields.len(),
{
    if fields.len() > 0 {
        lemma_fields_keep_order(credentials, fields.drop_last(), provider_type, instance, variables);
        let before = with_fields(credentials, fields.drop_last(), provider_type, instance, variables);
        let (field, default_variable) = fields.last();
        let variable = variable_name(provider_type, instance, field, default_variable);
        lemma_put(before, field, SecretView::FromEnv { env: variable });
    }
}

/// A credential that none of the fields names keeps its value.
proof fn lemma_other_fields(
    credentials: Seq<(Seq<char>, SecretView)>,
    fields: Seq<(Seq<char>, Seq<char>)>,
    provider_type: Seq<char>,
    instance: Option<Seq<char>>,
    variables: Variables,
    key: Seq<char>,
)
    requires
        ordered(credentials),
        forall|i: int| 0 <= i < fields.len() ==> (#[trigger] fields[i]).0 != key,
    ensures
        find(with_fields(credentials, fields, provider_type, instance, variables), key) == find(
            credentials,
            key,
        ),
    decreases fields.len(),
{
    if fields.len() > 0 {
        let front = fields.drop_last();
        assert forall|i: int| 0 <= i < front.len() implies (#[trigger] front[i]).0 != key by {
            assert(fields[i] == front[i]);
        }
        lemma_other_fields(credentials, front, provider_type, instance, variables, key);
        lemma_fields_keep_order(credentials, front, provider_type, instance, variables);
        let before = with_fields(credentials, front, provider_type, instance, variables);
        let (field, default_variable) = fields.last();
        let variable = variable_name(provider_type, instance, field, default_variable);
        assert(fields[fields.len() - 1].0 != key);
        lemma_put(before, field, SecretView::FromEnv { env: variable });
    }
}

/// Whether no two fields have the same name.
pub open spec fn distinct_fields(fields: Seq<(Seq<char>, Seq<char>)>) -> bool {
    forall|i: int, j: int|
        0 <= i < j < fields.len() ==> (#[trigger] fields[i]).0 != (#[trigger] fields[j]).0
}

#[verifier::spinoff_prover]
proof fn lemma_email_fields_are_distinct()
    ensures
        distinct_fields(env_fields("email"@)),
{
    reveal_strlit("email");
    reveal_strlit("mock");
    reveal_strlit("telegram");
    reveal_strlit("imap_host");
    reveal_strlit("imap_port");
    reveal_strlit("smtp_host");
    reveal_strlit("smtp_port");
    reveal_strlit("username");
    reveal_strlit("password");
    reveal_strlit("mailbox");
    reveal_strlit("from");
    reveal_strlit("page_size");
    reveal_strlit("max_messages");
    let fields = env_fields("email"@);
    assert("email"@[0] != "mock"@[0] && "email"@[0] != "telegram"@[0]);
    assert("imap_host"@[5] == 'h' && "imap_port"@[5] == 'p');
    assert("smtp_host"@[5] == 'h' && "smtp_port"@[5] == 'p');
    assert("imap_host"@[0] == 'i' && "imap_port"@[0] == 'i');
    assert("smtp_host"@[0] == 's' && "smtp_port"@[0] == 's');
    assert("username"@[0] == 'u' && "password"@[0] == 'p');
    assert("page_size"@[0] == 'p');
    assert(fields.len() == 10);
    assert(fields[0].0 == "imap_host"@ && fields[1].0 == "imap_port"@);
    assert(fields[2].0 == "smtp_host"@ && fields[3].0 == "smtp_port"@);
    assert(fields[4].0 == "username"@ && fields[5].0 == "password"@);
    assert(fields[6].0 == "mailbox"@ && fields[7].0 == "from"@);
    assert(fields[8].0 == "page_size"@ && fields[9].0 == "max_messages"@);
    assert forall|i: int, j: int| 0 <= i < j < fields.len() implies (#[trigger] fields[i]).0 != (
    #[trigger] fields[j]).0 by {
        assert(i == 0 || i == 1 || i == 2 || i == 3 || i == 4 || i == 5 || i == 6 || i == 7 || i
            == 8);
        assert(j == 1 || j == 2 || j == 3 || j == 4 || j == 5 || j == 6 || j == 7 || j == 8 || j
            == 9);
    }
}

#[verifier::spinoff_prover]
proof fn lemma_sms_fields_are_distinct()
    ensures
        distinct_fields(env_fields("sms"@)),
{
    reveal_strlit("sms");
    reveal_strlit("mock");
    reveal_strlit("telegram");
    reveal_strlit("email");
    reveal_strlit("ssh_host");
    reveal_strlit("ssh_command");
    reveal_strlit("self_number");
    let fields = env_fields("sms"@);
    assert("sms"@.len() == 3);
    assert("ssh_command"@[1] == 's' && "self_number"@[1] == 'e');
    assert("ssh_host"@.len() == 8);
    assert("ssh_command"@.len() == 11);
    assert(fields.len() == 3);
    assert(fields[0].0 == "ssh_host"@);
    assert(fields[1].0 == "ssh_command"@);
    assert(fields[2].0 == "self_number"@);
    assert forall|i: int, j: int| 0 <= i < j < fields.len() implies (#[trigger] fields[i]).0 != (
    #[trigger] fields[j]).0 by {
        assert(i == 0 || i == 1);
        assert(j == 1 || j == 2);
    }
}

/// No two fields of a provider type have the same name.
pub proof fn law_fields_are_distinct(provider_type: Seq<char>)
    ensures
        distinct_fields(env_fields(provider_type)),
{
    if provider_type == "email"@ {
        lemma_email_fields_are_distinct();
    } else if provider_type == "sms"@ {
        lemma_sms_fields_are_distinct();
    } else {
        assert(env_fields(provider_type).len() <= 1);
    }
}

/// The bot token of the default Telegram instance comes from its proper variable where that is set,
/// else from the deprecated one where that is set, else from the configuration.
pub proof fn law_canonical_token_wins(credentials: Seq<(Seq<char>, SecretView)>, variables: Variables)
    requires
        ordered(credentials),
    ensures
        find(overlaid_credentials(credentials, "telegram"@, None, variables), "bot_token"@) == (
        if is_set(variables, CANONICAL_TELEGRAM_BOT_TOKEN_ENV@) {
            Some(SecretView::FromEnv { env: CANONICAL_TELEGRAM_BOT_TOKEN_ENV@ })
        } else if is_set(variables, LEGACY_TELEGRAM_BOT_TOKEN_ENV@) {
            Some(SecretView::FromEnv { env: LEGACY_TELEGRAM_BOT_TOKEN_ENV@ })
        } else {
            find(credentials, "bot_token"@)
        }),
{
    reveal_strlit("mock");
    reveal_strlit("telegram");
    assert("mock"@.len() != "telegram"@.len());
    let fields = env_fields("telegram"@);
    assert(fields =~= seq![("bot_token"@, "IRIS_TELEGRAM_BOT_TOKEN"@)]);
    law_set_variables_win(credentials, fields, "telegram"@, None, variables, 0);
    lemma_put(
        with_fields(credentials, fields, "telegram"@, None, variables),
        "bot_token"@,
        SecretView::FromEnv { env: LEGACY_TELEGRAM_BOT_TOKEN_ENV@ },
    );
}

/// The deprecated variable changes nothing for other types and for named instances.
pub proof fn law_legacy_token_is_confined(
    credentials: Seq<(Seq<char>, SecretView)>,
    provider_type: Seq<char>,
    instance: Option<Seq<char>>,
    variables: Variables,
)
    requires
        provider_type != "telegram"@ || instance is Some,
    ensures
        overlaid_credentials(credentials, provider_type, instance, variables) == with_fields(
            credentials,
            env_fields(provider_type),
            provider_type,
            instance,
            variables,
        ),
{
}

/// Whether an id among some names the default instance of a type.
pub open spec fn names_default(ids: Seq<Seq<char>>, provider_type: Seq<char>) -> bool {
    exists|i: int|
        0 <= i < ids.len() && type_part(#[trigger] ids[i]) == provider_type && instance_part(
            ids[i],
        ).len() == 0
}

/// Whether an id among some names an instance of a type.
pub open spec fn names_instance(
    ids: Seq<Seq<char>>,
    provider_type: Seq<char>,
    instance: Seq<char>,
) -> bool {
    exists|i: int|
        0 <= i < ids.len() && type_part(#[trigger] ids[i]) == provider_type && instance_part(ids[i])
            == instance && instance.len() > 0
}

/// Whether a named instance of a type is there and enabled.
pub open spec fn enabled_instance(
    providers: Providers,
    provider_type: Seq<char>,
    instance: Seq<char>,
) -> bool {
    match find(providers, provider_type) {
        Some(provider) => match find(provider.instances, instance) {
            Some(known) => known.enabled,
            None => false,
        },
        None => false,
    }
}

proof fn lemma_disabled(providers: Providers)
    requires
        all_orderly(providers),
    ensures
        all_orderly(disabled(providers)),
        forall|provider_type: Seq<char>| #[trigger]
            find(disabled(providers), provider_type) matches Some(provider) ==> !provider.enabled
                && !provider.selected,
        forall|provider_type: Seq<char>, instance: Seq<char>|
            !#[trigger] enabled_instance(disabled(providers), provider_type, instance),
{
    let after = disabled(providers);
    lemma_same_keys(providers, after);
    assert forall|i: int| 0 <= i < after.len() implies orderly((#[trigger] after[i]).1) by {
        let before = providers[i].1;
        assert(orderly(before));
        lemma_same_keys(before.instances, after[i].1.instances);
        assert forall|k: int| 0 <= k < after[i].1.instances.len() implies orderly(
            (#[trigger] after[i].1.instances[k]).1,
        ) by {
            assert(orderly(before.instances[k].1));
        }
    }
    assert forall|provider_type: Seq<char>| #[trigger]
        find(after, provider_type) matches Some(provider) ==> !provider.enabled
            && !provider.selected by {
        lemma_found(after, provider_type);
    }
    assert forall|provider_type: Seq<char>, instance: Seq<char>|
        !#[trigger] enabled_instance(after, provider_type, instance) by {
        lemma_found(after, provider_type);
        if let Some(provider) = find(after, provider_type) {
            lemma_found(provider.instances, instance);
        }
    }
}

/// Replacing or adding an orderly configuration keeps the order.
proof fn lemma_with_value_is_orderly(providers: Providers, key: Seq<char>, value: ProviderView)
    requires
        all_orderly(providers),
        orderly(value),
    ensures
        all_orderly(with_value(providers, key, value)),
        value_of(providers, key) matches Some(known) ==> orderly(known),
{
    let after = with_value(providers, key, value);
    lemma_with_value(providers, key, value);
    lemma_put(providers, key, value);
    let at = placed(providers, key);
    assert forall|i: int| 0 <= i < after.len() implies orderly((#[trigger] after[i]).1) by {
        if holds(providers, key) {
            if i != at {
                assert(after[i] == providers[i]);
            }
        } else if i < at {
            assert(after[i] == providers[i]);
        } else if i > at {
            assert(after[i] == providers[i - 1]);
        }
    }
    if value_of(providers, key) is Some {
        assert(orderly(providers[at].1));
    }
}

/// Whether a declaration holds what the selection of an id makes of it.
pub open spec fn selected_one(base: ProviderView, instance: Seq<char>) -> ProviderView {
    if instance.len() == 0 {
        ProviderView { enabled: true, selected: true, ..base }
    } else {
        let known = match value_of(base.instances, instance) {
            Some(known) => known,
            None => ProviderView::bare(true),
        };
        ProviderView {
            instances: with_value(
                base.instances,
                instance,
                ProviderView { enabled: true, selected: true, ..known },
            ),
            ..base
        }
    }
}

proof fn lemma_selected_one_is_orderly(base: ProviderView, instance: Seq<char>)
    requires
        orderly(base),
    ensures
        orderly(selected_one(base, instance)),
{
    let bare = ProviderView::bare(true);
    assert(orderly(bare));
    let after = selected_one(base, instance);
    if instance.len() > 0 {
        assert(all_orderly(base.instances)) by {
            assert forall|i: int| 0 <= i < base.instances.len() implies orderly(
                (#[trigger] base.instances[i]).1,
            ) by {}
        }
        lemma_with_value_is_orderly(base.instances, instance, bare);
        let known = match value_of(base.instances, instance) {
            Some(known) => known,
            None => bare,
        };
        let changed = ProviderView { enabled: true, selected: true, ..known };
        assert(orderly(known));
        assert(orderly(changed)) by {
            assert(changed.instances == known.instances);
        }
        lemma_with_value_is_orderly(base.instances, instance, changed);
    }
}

proof fn lemma_selection_is_orderly(providers: Providers, id: Seq<char>)
    requires
        all_orderly(providers),
    ensures
        all_orderly(select_one(providers, id).0),
{
    let name = type_part(id);
    let bare = ProviderView::bare(false);
    assert(orderly(bare));
    lemma_with_value_is_orderly(providers, name, bare);
    let base = match value_of(providers, name) {
        Some(known) => known,
        None => bare,
    };
    lemma_with_value_is_orderly(providers, name, base);
    lemma_selected_one_is_orderly(base, instance_part(id));
    lemma_with_value_is_orderly(providers, name, selected_one(base, instance_part(id)));
}

proof fn lemma_selections_are_orderly(providers: Providers, ids: Seq<Seq<char>>)
    requires
        all_orderly(providers),
    ensures
        all_orderly(select_all(providers, ids).0),
    decreases ids.len(),
{
    if ids.len() > 0 {
        lemma_selections_are_orderly(providers, ids.drop_last());
        lemma_selection_is_orderly(select_all(providers, ids.drop_last()).0, ids.last());
    }
}

/// The credentials that the environment sets leave names and switches as they are.
pub proof fn lemma_overlay_keeps_names(providers: Providers, variables: Variables)
    ensures
        overlaid_providers(providers, variables).len() == providers.len(),
        forall|i: int|
            0 <= i < providers.len() ==> {
                let after = #[trigger] overlaid_providers(providers, variables)[i];
                &&& after.0 == providers[i].0
                &&& after.1.enabled == providers[i].1.enabled
                &&& after.1.selected == providers[i].1.selected
                &&& after.1.instances.len() == providers[i].1.instances.len()
                &&& forall|k: int|
                    0 <= k < after.1.instances.len() ==> {
                        &&& (#[trigger] after.1.instances[k]).0 == providers[i].1.instances[k].0
                        &&& after.1.instances[k].1.enabled
                            == providers[i].1.instances[k].1.enabled
                        &&& after.1.instances[k].1.instances
                            == providers[i].1.instances[k].1.instances
                    }
            },
{
}

/// The environment keeps a configuration valid: types and named instances ascend, and none occurs
/// twice.
pub proof fn law_overrides_keep_the_order(providers: Providers, variables: Variables)
    requires
        all_orderly(providers),
    ensures
        all_orderly(overridden(providers, variables).0),
{
    lemma_disabled(providers);
    if let Ok(list) = variable_text(variables, ENABLED_PROVIDERS_ENV@) {
        lemma_selections_are_orderly(disabled(providers), listed_ids(split_on(list, ',')));
    }
    let chosen = selected(providers, variables).0;
    assert(all_orderly(chosen));
    let after = overlaid_providers(chosen, variables);
    lemma_overlay_keeps_names(chosen, variables);
    lemma_same_keys(chosen, after);
    assert forall|i: int| 0 <= i < after.len() implies orderly((#[trigger] after[i]).1) by {
        let before = chosen[i].1;
        assert(orderly(before));
        lemma_same_keys(before.instances, after[i].1.instances);
        assert forall|k: int| 0 <= k < after[i].1.instances.len() implies orderly(
            (#[trigger] after[i].1.instances[k]).1,
        ) by {
            assert(orderly(before.instances[k].1));
        }
    }
}

/// A selection without a fault keeps the order, and enables exactly what it names: the default
/// instances of the types, and the named instances.
pub proof fn law_selection_enables_what_it_names(providers: Providers, ids: Seq<Seq<char>>)
    requires
        all_orderly(providers),
        select_all(disabled(providers), ids).1 is None,
    ensures
        all_orderly(select_all(disabled(providers), ids).0),
        forall|provider_type: Seq<char>| #[trigger]
            find(select_all(disabled(providers), ids).0, provider_type) matches Some(provider)
                ==> provider.enabled == names_default(ids, provider_type) && provider.selected
                == names_default(ids, provider_type),
        forall|provider_type: Seq<char>, instance: Seq<char>| #[trigger]
            enabled_instance(select_all(disabled(providers), ids).0, provider_type, instance)
                <==> names_instance(ids, provider_type, instance),
        forall|i: int|
            0 <= i < ids.len() ==> find(
                select_all(disabled(providers), ids).0,
                type_part(#[trigger] ids[i]),
            ) is Some,
    decreases ids.len(),
{
    lemma_disabled(providers);
    lemma_selections_are_orderly(disabled(providers), ids);
    if ids.len() > 0 {
        let front = ids.drop_last();
        law_selection_enables_what_it_names(providers, front);
        let before = select_all(disabled(providers), front).0;
        let id = ids.last();
        let name = type_part(id);
        let instance = instance_part(id);
        let after = select_all(disabled(providers), ids).0;
        assert(select_one(before, id) == (after, None::<Seq<char>>));
        let bare = ProviderView::bare(false);
        lemma_with_value(before, name, bare);
        let base = match value_of(before, name) {
            Some(known) => known,
            None => bare,
        };
        let changed = selected_one(base, instance);
        assert(after == with_value(before, name, changed));
        lemma_with_value(before, name, changed);
        lemma_put(before, name, changed);
        assert(orderly(bare));
        lemma_with_value_is_orderly(before, name, bare);
        assert(orderly(base));
        assert forall|provider_type: Seq<char>| #[trigger]
            find(after, provider_type) matches Some(provider) ==> provider.enabled
                == names_default(ids, provider_type) && provider.selected == names_default(
                ids,
                provider_type,
            ) by {
            lemma_names_default(ids, provider_type);
            if provider_type == name {
                if find(before, name) is None {
                    assert(!names_default(front, name)) by {
                        if names_default(front, name) {
                            let i = choose|i: int|
                                0 <= i < front.len() && type_part(#[trigger] front[i]) == name
                                    && instance_part(front[i]).len() == 0;
                            assert(find(before, type_part(front[i])) is Some);
                        }
                    }
                }
            } else {
                assert(find(before, provider_type) == find(after, provider_type));
            }
        }
        assert forall|provider_type: Seq<char>, other: Seq<char>| #[trigger]
            enabled_instance(after, provider_type, other) <==> names_instance(
                ids,
                provider_type,
                other,
            ) by {
            lemma_names_instance(ids, provider_type, other);
            assert(enabled_instance(before, provider_type, other) <==> names_instance(
                front,
                provider_type,
                other,
            ));
            assert(find(after, name) == Some(changed));
            if provider_type == name {
                if instance.len() > 0 {
                    let known = match value_of(base.instances, instance) {
                        Some(known) => known,
                        None => ProviderView::bare(true),
                    };
                    let enabled = ProviderView { enabled: true, selected: true, ..known };
                    lemma_with_value(base.instances, instance, enabled);
                    lemma_put(base.instances, instance, enabled);
                }
            } else {
                assert(find(before, provider_type) == find(after, provider_type));
            }
        }
        assert forall|i: int| 0 <= i < ids.len() implies find(
            after,
            type_part(#[trigger] ids[i]),
        ) is Some by {
            if i < front.len() {
                assert(front[i] == ids[i]);
                assert(find(before, type_part(front[i])) is Some);
            }
        }
    }
}

proof fn lemma_names_instance(
    ids: Seq<Seq<char>>,
    provider_type: Seq<char>,
    instance: Seq<char>,
)
    requires
        ids.len() > 0,
    ensures
        names_instance(ids, provider_type, instance) <==> names_instance(
            ids.drop_last(),
            provider_type,
            instance,
        ) || (type_part(ids.last()) == provider_type && instance_part(ids.last()) == instance
            && instance.len() > 0),
{
    let front = ids.drop_last();
    if names_instance(front, provider_type, instance) {
        let i = choose|i: int|
            0 <= i < front.len() && type_part(#[trigger] front[i]) == provider_type
                && instance_part(front[i]) == instance && instance.len() > 0;
        assert(ids[i] == front[i]);
    }
    if type_part(ids.last()) == provider_type && instance_part(ids.last()) == instance
        && instance.len() > 0 {
        assert(type_part(ids[ids.len() - 1]) == provider_type);
    }
    if names_instance(ids, provider_type, instance) {
        let i = choose|i: int|
            0 <= i < ids.len() && type_part(#[trigger] ids[i]) == provider_type && instance_part(
                ids[i],
            ) == instance && instance.len() > 0;
        if i < front.len() {
            assert(front[i] == ids[i]);
        }
    }
}

proof fn lemma_names_default(ids: Seq<Seq<char>>, provider_type: Seq<char>)
    requires
        ids.len() > 0,
    ensures
        names_default(ids, provider_type) <==> names_default(ids.drop_last(), provider_type) || (
        type_part(ids.last()) == provider_type && instance_part(ids.last()).len() == 0),
{
    let front = ids.drop_last();
    if names_default(front, provider_type) {
        let i = choose|i: int|
            0 <= i < front.len() && type_part(#[trigger] front[i]) == provider_type && instance_part(
                front[i],
            ).len() == 0;
        assert(ids[i] == front[i]);
    }
    if type_part(ids.last()) == provider_type && instance_part(ids.last()).len() == 0 {
        assert(type_part(ids[ids.len() - 1]) == provider_type);
    }
    if names_default(ids, provider_type) {
        let i = choose|i: int|
            0 <= i < ids.len() && type_part(#[trigger] ids[i]) == provider_type && instance_part(
                ids[i],
            ).len() == 0;
        if i < front.len() {
            assert(front[i] == ids[i]);
        }
    }
}

/// An ID is the type before the first dot and the instance behind it, or the type alone.
pub proof fn law_ids_are_type_and_instance(provider_type: Seq<char>, instance: Seq<char>)
    requires
        !provider_type.contains('.'),
    ensures
        type_part(provider_type) == provider_type,
        instance_part(provider_type).len() == 0,
        type_part(provider_type + seq!['.'] + instance) == provider_type,
        instance_part(provider_type + seq!['.'] + instance) == instance,
{
    let id = provider_type + seq!['.'] + instance;
    assert(id[provider_type.len() as int] == '.');
    assert forall|i: int| 0 <= i < provider_type.len() implies id[i] != '.' by {
        assert(id[i] == provider_type[i]);
    }
    lemma_first_index_unique(id, '.', provider_type.len() as int);
    assert(id.take(provider_type.len() as int) =~= provider_type);
    assert(id.skip(provider_type.len() as int + 1) =~= instance);
}

/// The IDs of a list are its entries without the white space around them, but for blank ones.
pub proof fn law_blank_ids_are_left_out(pieces: Seq<Seq<char>>)
    ensures
        listed_ids(pieces) == pieces.filter(|piece: Seq<char>| !blank(piece)).map_values(
            |piece: Seq<char>| trimmed(piece),
        ),
    decreases pieces.len(),
{
    reveal(Seq::filter);
    let ok = |piece: Seq<char>| !blank(piece);
    let f = |piece: Seq<char>| trimmed(piece);
    if pieces.len() > 0 {
        law_blank_ids_are_left_out(pieces.drop_last());
        if ok(pieces.last()) {
            assert(pieces.filter(ok).map_values(f) =~= pieces.drop_last().filter(ok).map_values(
                f,
            ).push(f(pieces.last())));
        }
    } else {
        assert(pieces.filter(ok).map_values(f) =~= seq![]);
    }
}

/// Where no selection is given the providers stay as they are; where one is given that names
/// nothing it is refused; otherwise everything that it does not name is disabled.
pub proof fn law_a_selection_has_to_name_something(
    providers: Providers,
    variables: Variables,
    list: Seq<char>,
)
    ensures
        variable_text(variables, "IRIS_ENABLED_PROVIDERS"@) is Err ==> selected(
            providers,
            variables,
        ) == (providers, None::<Seq<char>>),
        variable_text(variables, "IRIS_ENABLED_PROVIDERS"@) == Ok::<Seq<char>, Seq<char>>(list)
            && listed_ids(split_on(list, ',')).len() == 0 ==> selected(providers, variables) == (
            providers,
            Some("IRIS_ENABLED_PROVIDERS"@ + " must contain at least one provider id"@),
        ),
        variable_text(variables, "IRIS_ENABLED_PROVIDERS"@) == Ok::<Seq<char>, Seq<char>>(list)
            && listed_ids(split_on(list, ',')).len() > 0 ==> selected(providers, variables)
            == select_all(disabled(providers), listed_ids(split_on(list, ','))),
{
}

/// Disabling keeps names and credentials.
pub proof fn law_disabling_keeps_the_credentials(providers: Providers, i: int, k: int)
    requires
        0 <= i < providers.len(),
    ensures
        disabled(providers).len() == providers.len(),
        disabled(providers)[i].0 == providers[i].0,
        !disabled(providers)[i].1.enabled,
        !disabled(providers)[i].1.selected,
        disabled(providers)[i].1.credentials == providers[i].1.credentials,
        disabled(providers)[i].1.instances.len() == providers[i].1.instances.len(),
        0 <= k < providers[i].1.instances.len() ==> {
            let instance = disabled(providers)[i].1.instances[k];
            &&& instance.0 == providers[i].1.instances[k].0
            &&& !instance.1.enabled
            &&& instance.1.credentials == providers[i].1.instances[k].1.credentials
        },
{
}

/// Selecting an ID changes no other provider, and keeps the credentials of the one that it names.
pub proof fn law_selecting_keeps_the_credentials(
    providers: Providers,
    id: Seq<char>,
    other: Seq<char>,
)
    requires
        ordered(providers),
    ensures
        other != type_part(id) ==> find(select_one(providers, id).0, other) == find(
            providers,
            other,
        ),
        find(providers, type_part(id)) matches Some(known) ==> (find(
            select_one(providers, id).0,
            type_part(id),
        ) matches Some(provider) && provider.credentials == known.credentials),
        find(providers, type_part(id)) is None ==> (find(
            select_one(providers, id).0,
            type_part(id),
        ) matches Some(provider) ==> provider.credentials.len() == 0),
        select_one(providers, id).1 is None <==> identifier(type_part(id)) && (instance_part(
            id,
        ).len() == 0 || identifier(instance_part(id))),
{
    let name = type_part(id);
    let base = match value_of(providers, name) {
        Some(known) => known,
        None => ProviderView::bare(false),
    };
    lemma_with_value(providers, name, base);
    lemma_put(providers, name, base);
    let chosen = selected_one(base, instance_part(id));
    lemma_with_value(providers, name, chosen);
    lemma_put(providers, name, chosen);
}

/// A credential of a provider is taken from the variable that its field has; one of an instance
/// from the variable named after the type, the instance and the field.
pub proof fn law_variables_are_named_after_what_they_set(
    provider_type: Seq<char>,
    instance: Seq<char>,
    field: Seq<char>,
    default_variable: Seq<char>,
)
    ensures
        variable_name(provider_type, None, field, default_variable) == default_variable,
        variable_name(provider_type, Some(instance), field, default_variable) == "IRIS_"@
            + uppered_ascii(provider_type) + "__"@ + uppered_ascii(instance.map_values(
            |c: char|
                if c == '-' {
                    '_'
                } else {
                    c
                },
        )) + "__"@ + uppered_ascii(field),
{
    assert(replaced(instance, '-', '_') =~= instance.map_values(
        |c: char|
            if c == '-' {
                '_'
            } else {
                c
            },
    ));
}

/// The environment sets the credentials of a provider under no instance, and those of an instance
/// under its own name.
pub proof fn law_the_environment_sets_each_credential_in_its_place(
    providers: Providers,
    variables: Variables,
    i: int,
    k: int,
)
    requires
        0 <= i < providers.len(),
    ensures
        overlaid_providers(providers, variables)[i].1.credentials == overlaid_credentials(
            providers[i].1.credentials,
            providers[i].0,
            None,
            variables,
        ),
        0 <= k < providers[i].1.instances.len() ==> overlaid_providers(
            providers,
            variables,
        )[i].1.instances[k].1.credentials == overlaid_credentials(
            providers[i].1.instances[k].1.credentials,
            providers[i].0,
            Some(providers[i].1.instances[k].0),
            variables,
        ),
{
}

/// The fields that the environment can set for a provider type.
pub open spec fn settable_fields(provider_type: Seq<char>) -> Seq<Seq<char>> {
    if provider_type == "mock"@ {
        seq!["mode"@]
    } else if provider_type == "telegram"@ {
        seq!["bot_token"@]
    } else if provider_type == "email"@ {
        seq![
            "imap_host"@,
            "imap_port"@,
            "smtp_host"@,
            "smtp_port"@,
            "username"@,
            "password"@,
            "mailbox"@,
            "from"@,
            "page_size"@,
            "max_messages"@,
        ]
    } else if provider_type == "sms"@ {
        seq!["ssh_host"@, "ssh_command"@, "self_number"@]
    } else {
        seq![]
    }
}

/// The variable of a field is named after the provider type and the field, in capitals.
pub proof fn law_default_variables_are_named_after_type_and_field(provider_type: Seq<char>, i: int)
    ensures
        env_fields(provider_type).len() == settable_fields(provider_type).len(),
        0 <= i < env_fields(provider_type).len() ==> {
            let field = settable_fields(provider_type)[i];
            &&& env_fields(provider_type)[i].0 == field
            &&& env_fields(provider_type)[i].1 == "IRIS_"@ + uppered_ascii(provider_type) + "_"@
                + uppered_ascii(field)
        },
{
    if 0 <= i < env_fields(provider_type).len() {
        if provider_type == "mock"@ {
            lemma_mock_variables();
        } else if provider_type == "telegram"@ {
            lemma_telegram_variables();
        } else if provider_type == "email"@ {
            lemma_email_variables();
        } else if provider_type == "sms"@ {
            lemma_sms_variables();
        }
    }
}

proof fn lemma_mock_variables()
    ensures
        "IRIS_MOCK_MODE"@ == "IRIS_"@ + uppered_ascii("mock"@) + "_"@ + uppered_ascii("mode"@),
{
    reveal_strlit("IRIS_");
    reveal_strlit("_");
    reveal_strlit("mock");
    reveal_strlit("mode");
    reveal_strlit("IRIS_MOCK_MODE");
    assert("IRIS_MOCK_MODE"@ =~= "IRIS_"@ + uppered_ascii("mock"@) + "_"@ + uppered_ascii(
        "mode"@,
    ));
}

proof fn lemma_telegram_variables()
    ensures
        "IRIS_TELEGRAM_BOT_TOKEN"@ ==
            "IRIS_"@ + uppered_ascii("telegram"@) + "_"@ + uppered_ascii("bot_token"@),
{
    reveal_strlit("IRIS_");
    reveal_strlit("_");
    reveal_strlit("telegram");
    reveal_strlit("bot_token");
    reveal_strlit("IRIS_TELEGRAM_BOT_TOKEN");
    assert("IRIS_TELEGRAM_BOT_TOKEN"@ =~= "IRIS_"@ + uppered_ascii("telegram"@) + "_"@ + uppered_ascii(
        "bot_token"@,
    ));
}

proof fn lemma_email_variables()
    ensures
        "IRIS_EMAIL_IMAP_HOST"@ ==
            "IRIS_"@ + uppered_ascii("email"@) + "_"@ + uppered_ascii("imap_host"@),
        "IRIS_EMAIL_IMAP_PORT"@ ==
            "IRIS_"@ + uppered_ascii("email"@) + "_"@ + uppered_ascii("imap_port"@),
        "IRIS_EMAIL_SMTP_HOST"@ ==
            "IRIS_"@ + uppered_ascii("email"@) + "_"@ + uppered_ascii("smtp_host"@),
        "IRIS_EMAIL_SMTP_PORT"@ ==
            "IRIS_"@ + uppered_ascii("email"@) + "_"@ + uppered_ascii("smtp_port"@),
        "IRIS_EMAIL_USERNAME"@ ==
            "IRIS_"@ + uppered_ascii("email"@) + "_"@ + uppered_ascii("username"@),
        "IRIS_EMAIL_PASSWORD"@ ==
            "IRIS_"@ + uppered_ascii("email"@) + "_"@ + uppered_ascii("password"@),
        "IRIS_EMAIL_MAILBOX"@ ==
            "IRIS_"@ + uppered_ascii("email"@) + "_"@ + uppered_ascii("mailbox"@),
        "IRIS_EMAIL_FROM"@ == "IRIS_"@ + uppered_ascii("email"@) + "_"@ + uppered_ascii("from"@),
        "IRIS_EMAIL_PAGE_SIZE"@ ==
            "IRIS_"@ + uppered_ascii("email"@) + "_"@ + uppered_ascii("page_size"@),
        "IRIS_EMAIL_MAX_MESSAGES"@ ==
            "IRIS_"@ + uppered_ascii("email"@) + "_"@ + uppered_ascii("max_messages"@),
{
    reveal_strlit("IRIS_");
    reveal_strlit("_");
    reveal_strlit("email");
    reveal_strlit("imap_host");
    reveal_strlit("IRIS_EMAIL_IMAP_HOST");
    reveal_strlit("imap_port");
    reveal_strlit("IRIS_EMAIL_IMAP_PORT");
    reveal_strlit("smtp_host");
    reveal_strlit("IRIS_EMAIL_SMTP_HOST");
    reveal_strlit("smtp_port");
    reveal_strlit("IRIS_EMAIL_SMTP_PORT");
    reveal_strlit("username");
    reveal_strlit("IRIS_EMAIL_USERNAME");
    reveal_strlit("password");
    reveal_strlit("IRIS_EMAIL_PASSWORD");
    reveal_strlit("mailbox");
    reveal_strlit("IRIS_EMAIL_MAILBOX");
    reveal_strlit("from");
    reveal_strlit("IRIS_EMAIL_FROM");
    reveal_strlit("page_size");
    reveal_strlit("IRIS_EMAIL_PAGE_SIZE");
    reveal_strlit("max_messages");
    reveal_strlit("IRIS_EMAIL_MAX_MESSAGES");
    assert("IRIS_EMAIL_IMAP_HOST"@ =~= "IRIS_"@ + uppered_ascii("email"@) + "_"@ + uppered_ascii(
        "imap_host"@,
    ));
    assert("IRIS_EMAIL_IMAP_PORT"@ =~= "IRIS_"@ + uppered_ascii("email"@) + "_"@ + uppered_ascii(
        "imap_port"@,
    ));
    assert("IRIS_EMAIL_SMTP_HOST"@ =~= "IRIS_"@ + uppered_ascii("email"@) + "_"@ + uppered_ascii(
        "smtp_host"@,
    ));
    assert("IRIS_EMAIL_SMTP_PORT"@ =~= "IRIS_"@ + uppered_ascii("email"@) + "_"@ + uppered_ascii(
        "smtp_port"@,
    ));
    assert("IRIS_EMAIL_USERNAME"@ =~= "IRIS_"@ + uppered_ascii("email"@) + "_"@ + uppered_ascii(
        "username"@,
    ));
    assert("IRIS_EMAIL_PASSWORD"@ =~= "IRIS_"@ + uppered_ascii("email"@) + "_"@ + uppered_ascii(
        "password"@,
    ));
    assert("IRIS_EMAIL_MAILBOX"@ =~= "IRIS_"@ + uppered_ascii("email"@) + "_"@ + uppered_ascii(
        "mailbox"@,
    ));
    assert("IRIS_EMAIL_FROM"@ =~= "IRIS_"@ + uppered_ascii("email"@) + "_"@ + uppered_ascii(
        "from"@,
    ));
    assert("IRIS_EMAIL_PAGE_SIZE"@ =~= "IRIS_"@ + uppered_ascii("email"@) + "_"@ + uppered_ascii(
        "page_size"@,
    ));
    assert("IRIS_EMAIL_MAX_MESSAGES"@ =~= "IRIS_"@ + uppered_ascii("email"@) + "_"@ + uppered_ascii(
        "max_messages"@,
    ));
}

proof fn lemma_sms_variables()
    ensures
        "IRIS_SMS_SSH_HOST"@ ==
            "IRIS_"@ + uppered_ascii("sms"@) + "_"@ + uppered_ascii("ssh_host"@),
        "IRIS_SMS_SSH_COMMAND"@ ==
            "IRIS_"@ + uppered_ascii("sms"@) + "_"@ + uppered_ascii("ssh_command"@),
        "IRIS_SMS_SELF_NUMBER"@ ==
            "IRIS_"@ + uppered_ascii("sms"@) + "_"@ + uppered_ascii("self_number"@),
{
    reveal_strlit("IRIS_");
    reveal_strlit("_");
    reveal_strlit("sms");
    reveal_strlit("ssh_host");
    reveal_strlit("IRIS_SMS_SSH_HOST");
    reveal_strlit("ssh_command");
    reveal_strlit("IRIS_SMS_SSH_COMMAND");
    reveal_strlit("self_number");
    reveal_strlit("IRIS_SMS_SELF_NUMBER");
    assert("IRIS_SMS_SSH_HOST"@ =~= "IRIS_"@ + uppered_ascii("sms"@) + "_"@ + uppered_ascii(
        "ssh_host"@,
    ));
    assert("IRIS_SMS_SSH_COMMAND"@ =~= "IRIS_"@ + uppered_ascii("sms"@) + "_"@ + uppered_ascii(
        "ssh_command"@,
    ));
    assert("IRIS_SMS_SELF_NUMBER"@ =~= "IRIS_"@ + uppered_ascii("sms"@) + "_"@ + uppered_ascii(
        "self_number"@,
    ));
}

/// An id whose type or instance is no identifier is refused by a message that tells which it is,
/// the id, and the variable that names it; any other id is taken.
pub proof fn law_wrong_ids_are_told(providers: Providers, id: Seq<char>)
    ensures
        !identifier(type_part(id)) ==> select_one(providers, id).1 == Some(
            "invalid provider id `"@ + id + "` in IRIS_ENABLED_PROVIDERS"@,
        ),
        identifier(type_part(id)) && instance_part(id).len() > 0 && !identifier(instance_part(id))
            ==> select_one(providers, id).1 == Some(
            "invalid provider instance `"@ + id + "` in IRIS_ENABLED_PROVIDERS"@,
        ),
        identifier(type_part(id)) && (instance_part(id).len() == 0 || identifier(instance_part(id)))
            ==> select_one(providers, id).1 is None,
{
    reveal_strlit("invalid provider ");
    reveal_strlit("id");
    reveal_strlit("instance");
    reveal_strlit(" `");
    reveal_strlit("` in ");
    reveal_strlit("IRIS_ENABLED_PROVIDERS");
    reveal_strlit("invalid provider id `");
    reveal_strlit("invalid provider instance `");
    reveal_strlit("` in IRIS_ENABLED_PROVIDERS");
    assert("invalid provider "@ + "id"@ + " `"@ =~= "invalid provider id `"@);
    assert("invalid provider "@ + "instance"@ + " `"@ =~= "invalid provider instance `"@);
    assert("` in "@ + ENABLED_PROVIDERS_ENV@ =~= "` in IRIS_ENABLED_PROVIDERS"@);
    assert(bad_id("id"@, id) =~= "invalid provider "@ + "id"@ + " `"@ + id + ("` in "@
        + ENABLED_PROVIDERS_ENV@));
    assert(bad_id("instance"@, id) =~= "invalid provider "@ + "instance"@ + " `"@ + id + ("` in "@
        + ENABLED_PROVIDERS_ENV@));
}

} // verus!
