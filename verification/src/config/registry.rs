//! From a configuration to the providers it enables.

use vstd::prelude::*;
use crate::audit::{AuditEvent, AuditEventView};
use crate::config::selection::{
    disabled, enabled_instance, instance_part, law_overrides_keep_the_order,
    law_selection_enables_what_it_names, lemma_overlay_keeps_names, listed_ids, names_default,
    names_instance, overlaid_providers, overridden, select_all, type_part,
};
use crate::config::{
    all_orderly, config_views, identifier, identifier_char, law_every_name_is_an_identifier,
    lemma_instances, name_fault, orderly,
    resolve_credentials, resolved_credentials, variable_text, ConfigError, EnvValue, Environment,
    IrisConfig, ProviderConfig, ProviderView, SecretView, ENABLED_PROVIDERS_ENV,
};
use crate::email::{settings_from, EmailProvider, EmailSettings};
use crate::error::prefixed;
use crate::maps::{find, lemma_find_at, lemma_found, ordered, StringMap};
use crate::model::{Contact, ContactView, Thread, ThreadView};
use crate::order::{lemma_text_irreflexive, text_before};
use crate::sms::{SmsProvider, SmsSettings};
use crate::telegram::{provider_from, TelegramProvider};
use crate::text::{
    first_index, lemma_first_index_unique, split_on, str_eq, view_list, view_result, views,
};

verus! {

/// A provider entry with credentials resolved from the environment.
#[derive(Debug, PartialEq, Eq)]
pub struct ResolvedProviderConfig {
    /// Stable configured instance id (`email` or `email.ops-codefold`).
    pub id: String,
    /// Static provider type used for construction (`email`, never inferred from `id`).
    pub provider_type: String,
    /// Resolved credentials and options.
    pub credentials: StringMap<String>,
}

/// The mathematical value of a resolved entry.
#[verifier::ext_equal]
pub struct ResolvedView {
    pub id: Seq<char>,
    pub provider_type: Seq<char>,
    pub credentials: Seq<(Seq<char>, Seq<char>)>,
}

impl View for ResolvedProviderConfig {
    type V = ResolvedView;

    open spec fn view(&self) -> ResolvedView {
        ResolvedView {
            id: self.id@,
            provider_type: self.provider_type@,
            credentials: self.credentials.texts(),
        }
    }
}

/// An enabled instance before its credentials are resolved.
#[verifier::ext_equal]
pub struct EntryView {
    pub id: Seq<char>,
    pub provider_type: Seq<char>,
    pub credentials: Seq<(Seq<char>, SecretView)>,
}

/// The id of a named instance.
pub open spec fn instance_id(provider_type: Seq<char>, instance: Seq<char>) -> Seq<char> {
    provider_type + "."@ + instance
}

/// The enabled ones of some named instances.
pub open spec fn enabled_instances(
    provider_type: Seq<char>,
    instances: Seq<(Seq<char>, ProviderView)>,
) -> Seq<EntryView>
    decreases instances.len(),
{
    if instances.len() == 0 {
        seq![]
    } else {
        let front = enabled_instances(provider_type, instances.drop_last());
        let (name, instance) = instances.last();
        if instance.enabled {
            front.push(
                EntryView {
                    id: instance_id(provider_type, name),
                    provider_type,
                    credentials: instance.credentials,
                },
            )
        } else {
            front
        }
    }
}

/// Whether a declaration is an instance of its own: it is enabled, and either it was selected by
/// its id, or it has no named instances, or it has credentials. A declaration that only holds named
/// instances is none.
pub open spec fn default_enabled(provider: ProviderView) -> bool {
    provider.enabled && (provider.selected || provider.instances.len() == 0
        || provider.credentials.len() > 0)
}

/// The enabled instances of a provider type: the default one first.
pub open spec fn entries_of(provider_type: Seq<char>, provider: ProviderView) -> Seq<EntryView> {
    let default = if default_enabled(provider) {
        seq![
            EntryView {
                id: provider_type,
                provider_type,
                credentials: provider.credentials,
            },
        ]
    } else {
        seq![]
    };
    default + enabled_instances(provider_type, provider.instances)
}

/// The enabled instances of all provider types.
pub open spec fn enabled_entries(providers: Seq<(Seq<char>, ProviderView)>) -> Seq<EntryView>
    decreases providers.len(),
{
    if providers.len() == 0 {
        seq![]
    } else {
        enabled_entries(providers.drop_last()) + entries_of(providers.last().0, providers.last().1)
    }
}

/// A resolved entry, or why its credentials cannot be read.
pub open spec fn resolved_entry(entry: EntryView, variables: Seq<(Seq<char>, EnvValue)>) -> Result<
    ResolvedView,
    Seq<char>,
> {
    match resolved_credentials(entry.credentials, variables) {
        Ok(credentials) => Ok(
            ResolvedView { id: entry.id, provider_type: entry.provider_type, credentials },
        ),
        Err(error) => Err(error),
    }
}

/// Resolved entries, or the first error.
pub open spec fn resolved_entries(
    entries: Seq<EntryView>,
    variables: Seq<(Seq<char>, EnvValue)>,
) -> Result<Seq<ResolvedView>, Seq<char>>
    decreases entries.len(),
{
    if entries.len() == 0 {
        Ok(seq![])
    } else {
        match resolved_entries(entries.drop_last(), variables) {
            Err(error) => Err(error),
            Ok(front) => match resolved_entry(entries.last(), variables) {
                Err(error) => Err(error),
                Ok(entry) => Ok(front.push(entry)),
            },
        }
    }
}

/// The resolved enabled providers of a configuration, or what is wrong with it.
pub open spec fn resolved(
    providers: Seq<(Seq<char>, ProviderView)>,
    variables: Seq<(Seq<char>, EnvValue)>,
) -> Result<Seq<ResolvedView>, Seq<char>> {
    match name_fault(providers) {
        Some(fault) => Err(fault),
        None => resolved_entries(enabled_entries(providers), variables),
    }
}

/// Entries one behind the other resolve one behind the other.
proof fn lemma_resolved_sum(
    first: Seq<EntryView>,
    second: Seq<EntryView>,
    variables: Seq<(Seq<char>, EnvValue)>,
)
    ensures
        resolved_entries(first + second, variables) == (match resolved_entries(first, variables) {
            Err(error) => Err(error),
            Ok(front) => match resolved_entries(second, variables) {
                Err(error) => Err(error),
                Ok(back) => Ok(front + back),
            },
        }),
    decreases second.len(),
{
    if second.len() == 0 {
        assert(first + second =~= first);
        if resolved_entries(first, variables) is Ok {
            let front = resolved_entries(first, variables)->Ok_0;
            assert(front + Seq::<ResolvedView>::empty() =~= front);
        }
    } else {
        lemma_resolved_sum(first, second.drop_last(), variables);
        assert((first + second).drop_last() =~= first + second.drop_last());
        if resolved_entries(first, variables) is Ok && resolved_entries(
            second.drop_last(),
            variables,
        ) is Ok && resolved_entry(second.last(), variables) is Ok {
            let front = resolved_entries(first, variables)->Ok_0;
            let back = resolved_entries(second.drop_last(), variables)->Ok_0;
            let last = resolved_entry(second.last(), variables)->Ok_0;
            assert((front + back).push(last) =~= front + back.push(last));
        }
    }
}

/// An error among the entries before is the error of them all.
proof fn lemma_entries_prefix(
    providers: Seq<(Seq<char>, ProviderView)>,
    variables: Seq<(Seq<char>, EnvValue)>,
    n: int,
)
    requires
        0 <= n <= providers.len(),
    ensures
        resolved_entries(enabled_entries(providers.take(n)), variables) is Err ==> resolved_entries(
            enabled_entries(providers),
            variables,
        ) == resolved_entries(enabled_entries(providers.take(n)), variables),
    decreases providers.len() - n,
{
    if n < providers.len() {
        lemma_entries_prefix(providers, variables, n + 1);
        let next = providers.take(n + 1);
        assert(next.drop_last() =~= providers.take(n));
        lemma_resolved_sum(
            enabled_entries(providers.take(n)),
            entries_of(next.last().0, next.last().1),
            variables,
        );
    } else {
        assert(providers.take(n) =~= providers);
    }
}

proof fn lemma_instances_prefix(
    provider_type: Seq<char>,
    instances: Seq<(Seq<char>, ProviderView)>,
    variables: Seq<(Seq<char>, EnvValue)>,
    n: int,
)
    requires
        0 <= n <= instances.len(),
    ensures
        resolved_entries(enabled_instances(provider_type, instances.take(n)), variables) is Err
            ==> resolved_entries(enabled_instances(provider_type, instances), variables)
            == resolved_entries(enabled_instances(provider_type, instances.take(n)), variables),
    decreases instances.len() - n,
{
    if n < instances.len() {
        lemma_instances_prefix(provider_type, instances, variables, n + 1);
        let next = instances.take(n + 1);
        assert(next.drop_last() =~= instances.take(n));
        let front = enabled_instances(provider_type, instances.take(n));
        let all = enabled_instances(provider_type, next);
        if all != front {
            assert(all.drop_last() =~= front);
        }
    } else {
        assert(instances.take(n) =~= instances);
    }
}

/// Resolves the credentials of an instance.
pub fn resolve_provider(
    id: &str,
    provider_type: &str,
    provider: &ProviderConfig,
    environment: &Environment,
) -> (r: Result<ResolvedProviderConfig, ConfigError>)
    ensures
        view_result(r) == resolved_entry(
            EntryView {
                id: id@,
                provider_type: provider_type@,
                credentials: provider@.credentials,
            },
            environment.variables.pairs(),
        ),
{
    proof {
        lemma_instances(*provider);
    }
    match resolve_credentials(&provider.credentials, environment) {
        Ok(credentials) => Ok(
            ResolvedProviderConfig {
                id: id.to_owned(),
                provider_type: provider_type.to_owned(),
                credentials,
            },
        ),
        Err(error) => Err(error),
    }
}

fn resolve_instances(
    provider_type: &str,
    instances: &Vec<(String, ProviderConfig)>,
    environment: &Environment,
) -> (r: Result<Vec<ResolvedProviderConfig>, ConfigError>)
    ensures
        view_list(r) == resolved_entries(
            enabled_instances(provider_type@, config_views(instances@)),
            environment.variables.pairs(),
        ),
{
    let ghost all = config_views(instances@);
    let ghost variables = environment.variables.pairs();
    let mut out: Vec<ResolvedProviderConfig> = Vec::new();
    let mut i: usize = 0;
    assert(all.take(0) =~= seq![]);
    assert(views(out@) =~= seq![]);
    while i < instances.len()
        invariant
            i <= instances@.len(),
            all == config_views(instances@),
            variables == environment.variables.pairs(),
            resolved_entries(enabled_instances(provider_type@, all.take(i as int)), variables)
                == Ok::<Seq<ResolvedView>, Seq<char>>(views(out@)),
        decreases instances@.len() - i,
    {
        let ghost before = enabled_instances(provider_type@, all.take(i as int));
        let ghost after = enabled_instances(provider_type@, all.take(i + 1));
        proof {
            let next = all.take(i + 1);
            assert(next.drop_last() =~= all.take(i as int));
            assert(next.last() == all[i as int]);
            lemma_instances(instances@[i as int].1);
            lemma_instances_prefix(provider_type@, all, variables, i + 1);
        }
        if instances[i].1.enabled {
            let mut id = prefixed(provider_type, ".");
            id.append(instances[i].0.as_str());
            assert(after.drop_last() =~= before);
            match resolve_provider(id.as_str(), provider_type, &instances[i].1, environment) {
                Ok(entry) => {
                    let ghost known = views(out@);
                    let ghost added = entry@;
                    out.push(entry);
                    assert(views(out@) =~= known.push(added));
                },
                Err(error) => {
                    return Err(error);
                },
            }
        }
        i += 1;
    }
    assert(all.take(all.len() as int) =~= all);
    Ok(out)
}

fn resolve_entries(provider_type: &str, provider: &ProviderConfig, environment: &Environment) -> (r:
    Result<Vec<ResolvedProviderConfig>, ConfigError>)
    ensures
        view_list(r) == resolved_entries(
            entries_of(provider_type@, provider@),
            environment.variables.pairs(),
        ),
{
    let ghost variables = environment.variables.pairs();
    let ghost named = enabled_instances(provider_type@, provider@.instances);
    let ghost default = EntryView {
        id: provider_type@,
        provider_type: provider_type@,
        credentials: provider@.credentials,
    };
    proof {
        lemma_instances(*provider);
    }
    let mut out: Vec<ResolvedProviderConfig> = Vec::new();
    if provider.enabled && (provider.selected || provider.instances.len() == 0
        || !provider.credentials.is_empty()) {
        proof {
            assert(entries_of(provider_type@, provider@) == seq![default] + named);
            lemma_resolved_sum(seq![default], named, variables);
            assert(seq![default].drop_last() =~= seq![]);
            assert(resolved_entries(seq![default].drop_last(), variables) == Ok::<
                Seq<ResolvedView>,
                Seq<char>,
            >(seq![]));
        }
        match resolve_provider(provider_type, provider_type, provider, environment) {
            Ok(entry) => {
                let ghost added = entry@;
                out.push(entry);
                assert(views(out@) =~= Seq::<ResolvedView>::empty().push(added));
                assert(resolved_entries(seq![default], variables) == Ok::<
                    Seq<ResolvedView>,
                    Seq<char>,
                >(views(out@)));
            },
            Err(error) => {
                return Err(error);
            },
        }
    } else {
        proof {
            assert(entries_of(provider_type@, provider@) =~= named);
            assert(views(out@) =~= seq![]);
        }
    }
    let ghost first = views(out@);
    match resolve_instances(provider_type, &provider.instances, environment) {
        Ok(more) => {
            let mut more = more;
            let ghost added = views(more@);
            out.append(&mut more);
            assert(views(out@) =~= first + added);
            Ok(out)
        },
        Err(error) => Err(error),
    }
}

impl IrisConfig {
    /// Resolve enabled provider entries and their env-backed secrets.
    ///
    /// A declaration with named instances and no credentials of its own is no instance, unless the
    /// environment selected it by its id: it only holds the others.
    pub fn resolved_enabled_providers(&self, environment: &Environment) -> (r: Result<
        Vec<ResolvedProviderConfig>,
        ConfigError,
    >)
        ensures
            view_list(r) == resolved(
                config_views(self.providers@),
                environment.variables.pairs(),
            ),
    {
        if let Err(error) = self.validate_provider_identifiers() {
            return Err(error);
        }
        let ghost all = config_views(self.providers@);
        let ghost variables = environment.variables.pairs();
        let mut out: Vec<ResolvedProviderConfig> = Vec::new();
        let mut i: usize = 0;
        assert(all.take(0) =~= seq![]);
        assert(views(out@) =~= seq![]);
        while i < self.providers.len()
            invariant
                i <= self.providers@.len(),
                all == config_views(self.providers@),
                name_fault(all) is None,
                variables == environment.variables.pairs(),
                resolved_entries(enabled_entries(all.take(i as int)), variables) == Ok::<
                    Seq<ResolvedView>,
                    Seq<char>,
                >(views(out@)),
            decreases self.providers@.len() - i,
        {
            proof {
                let next = all.take(i + 1);
                assert(next.drop_last() =~= all.take(i as int));
                assert(next.last() == all[i as int]);
                lemma_entries_prefix(all, variables, i + 1);
                lemma_resolved_sum(
                    enabled_entries(all.take(i as int)),
                    entries_of(next.last().0, next.last().1),
                    variables,
                );
            }
            let ghost first = views(out@);
            match resolve_entries(
                self.providers[i].0.as_str(),
                &self.providers[i].1,
                environment,
            ) {
                Ok(more) => {
                    let mut more = more;
                    let ghost added = views(more@);
                    out.append(&mut more);
                    assert(views(out@) =~= first + added);
                },
                Err(error) => {
                    return Err(error);
                },
            }
            i += 1;
        }
        assert(all.take(all.len() as int) =~= all);
        Ok(out)
    }
}

/// A provider that can be used.
#[derive(Debug)]
pub enum BuiltProvider {
    Mock,
    Telegram(TelegramProvider),
    Email(EmailProvider),
    Sms(SmsProvider),
}

/// The mathematical value of a provider.
pub enum BuiltView {
    Mock,
    Telegram { bot_token: Seq<char>, base_url: Seq<char> },
    Email(EmailSettings),
    Sms(SmsSettings),
}

impl View for BuiltProvider {
    type V = BuiltView;

    open spec fn view(&self) -> BuiltView {
        match *self {
            BuiltProvider::Mock => BuiltView::Mock,
            BuiltProvider::Telegram(provider) => BuiltView::Telegram {
                bot_token: provider.bot_token@,
                base_url: provider.base_url@,
            },
            BuiltProvider::Email(provider) => BuiltView::Email(provider@),
            BuiltProvider::Sms(provider) => BuiltView::Sms(provider@),
        }
    }
}

/// A provider under its configured instance id.
#[derive(Debug)]
pub struct ProviderInstance {
    pub id: String,
    pub provider: BuiltProvider,
}

/// The mathematical value of a provider instance.
pub struct InstanceView {
    pub id: Seq<char>,
    pub provider: BuiltView,
}

impl View for ProviderInstance {
    type V = InstanceView;

    open spec fn view(&self) -> InstanceView {
        InstanceView { id: self.id@, provider: self.provider@ }
    }
}

/// The provider that an entry makes, or why it makes none.
pub open spec fn built(entry: ResolvedView) -> Result<BuiltView, Seq<char>> {
    if entry.provider_type == "mock"@ {
        Ok(BuiltView::Mock)
    } else if entry.provider_type == "telegram"@ {
        match provider_from(entry.credentials) {
            Ok((bot_token, base_url)) => Ok(BuiltView::Telegram { bot_token, base_url }),
            Err(error) => Err(error.message()),
        }
    } else if entry.provider_type == "email"@ {
        match settings_from(entry.credentials) {
            Ok(settings) => Ok(BuiltView::Email(settings)),
            Err(error) => Err(error.message()),
        }
    } else if entry.provider_type == "sms"@ {
        match crate::sms::settings_from(entry.credentials) {
            Ok(settings) => Ok(BuiltView::Sms(settings)),
            Err(error) => Err(error.message()),
        }
    } else {
        Err("provider is configured but not available in this build: "@ + entry.provider_type)
    }
}

/// The instance that an entry makes.
pub open spec fn built_instance(entry: ResolvedView) -> Result<InstanceView, Seq<char>> {
    match built(entry) {
        Ok(provider) => Ok(InstanceView { id: entry.id, provider }),
        Err(error) => Err(error),
    }
}

/// The instances that entries make, or the first error.
pub open spec fn built_instances(entries: Seq<ResolvedView>) -> Result<Seq<InstanceView>, Seq<char>>
    decreases entries.len(),
{
    if entries.len() == 0 {
        Ok(seq![])
    } else {
        match built_instances(entries.drop_last()) {
            Err(error) => Err(error),
            Ok(front) => match built_instance(entries.last()) {
                Err(error) => Err(error),
                Ok(instance) => Ok(front.push(instance)),
            },
        }
    }
}

proof fn lemma_built_prefix(entries: Seq<ResolvedView>, n: int)
    requires
        0 <= n <= entries.len(),
    ensures
        built_instances(entries.take(n)) is Err ==> built_instances(entries) == built_instances(
            entries.take(n),
        ),
    decreases entries.len() - n,
{
    if n < entries.len() {
        lemma_built_prefix(entries, n + 1);
        assert(entries.take(n + 1).drop_last() =~= entries.take(n));
    } else {
        assert(entries.take(n) =~= entries);
    }
}

/// Builds the provider of an entry. The type decides, never the id.
pub fn build_provider(entry: &ResolvedProviderConfig) -> (r: Result<ProviderInstance, ConfigError>)
    ensures
        view_result(r) == built_instance(entry@),
{
    let provider_type = entry.provider_type.as_str();
    let provider = if str_eq(provider_type, "mock") {
        BuiltProvider::Mock
    } else if str_eq(provider_type, "telegram") {
        match TelegramProvider::from_credentials(&entry.credentials) {
            Ok(provider) => BuiltProvider::Telegram(provider),
            Err(error) => {
                return Err(ConfigError { message: error.describe() });
            },
        }
    } else if str_eq(provider_type, "email") {
        match EmailProvider::from_credentials(&entry.credentials) {
            Ok(provider) => BuiltProvider::Email(provider),
            Err(error) => {
                return Err(ConfigError { message: error.describe() });
            },
        }
    } else if str_eq(provider_type, "sms") {
        match SmsProvider::from_credentials(&entry.credentials) {
            Ok(provider) => BuiltProvider::Sms(provider),
            Err(error) => {
                return Err(ConfigError { message: error.describe() });
            },
        }
    } else {
        return Err(
            ConfigError {
                message: prefixed(
                    "provider is configured but not available in this build: ",
                    provider_type,
                ),
            },
        );
    };
    Ok(ProviderInstance { id: entry.id.clone(), provider })
}

/// Build providers from a loaded config.
///
/// Only enabled known provider declarations are registered. An empty explicit config returns an
/// empty provider list.
pub fn providers_from_config(config: &IrisConfig, environment: &Environment) -> (r: Result<
    Vec<ProviderInstance>,
    ConfigError,
>)
    ensures
        view_list(r) == (match resolved(
            config_views(config.providers@),
            environment.variables.pairs(),
        ) {
            Ok(entries) => built_instances(entries),
            Err(error) => Err(error),
        }),
{
    let entries = match config.resolved_enabled_providers(environment) {
        Ok(entries) => entries,
        Err(error) => {
            return Err(error);
        },
    };
    let ghost all = views(entries@);
    let mut out: Vec<ProviderInstance> = Vec::new();
    let mut i: usize = 0;
    assert(all.take(0) =~= seq![]);
    assert(views(out@) =~= seq![]);
    while i < entries.len()
        invariant
            i <= entries@.len(),
            all == views(entries@),
            resolved(config_views(config.providers@), environment.variables.pairs()) == Ok::<
                Seq<ResolvedView>,
                Seq<char>,
            >(all),
            built_instances(all.take(i as int)) == Ok::<Seq<InstanceView>, Seq<char>>(views(out@)),
        decreases entries@.len() - i,
    {
        proof {
            let next = all.take(i + 1);
            assert(next.drop_last() =~= all.take(i as int));
            assert(next.last() == entries@[i as int]@);
            lemma_built_prefix(all, i + 1);
        }
        match build_provider(&entries[i]) {
            Ok(instance) => {
                let ghost known = views(out@);
                let ghost added = instance@;
                out.push(instance);
                assert(views(out@) =~= known.push(added));
            },
            Err(error) => {
                return Err(error);
            },
        }
        i += 1;
    }
    assert(all.take(all.len() as int) =~= all);
    Ok(out)
}

/// Where a configuration comes from.
#[derive(Debug, PartialEq, Eq)]
pub enum ConfigSource {
    /// A file that has to be there.
    File(String),
    /// No file: the configuration is empty.
    Default,
}

/// The first candidate that exists.
pub open spec fn first_existing(candidates: Seq<Seq<char>>, exists: Seq<bool>) -> Option<Seq<char>>
    decreases candidates.len(),
{
    if candidates.len() == 0 || exists.len() == 0 {
        None
    } else if exists[0] {
        Some(candidates[0])
    } else {
        first_existing(candidates.drop_first(), exists.drop_first())
    }
}

/// Where the configuration comes from: the explicit path, which is then required, else the first
/// candidate that exists.
pub fn config_source(explicit: Option<String>, candidates: &Vec<String>, existing: &Vec<bool>) -> (r:
    ConfigSource)
    requires
        candidates@.len() == existing@.len(),
    ensures
        match explicit {
            Some(path) => r == ConfigSource::File(path),
            None => match first_existing(views(candidates@), existing@) {
                Some(path) => r is File && r->File_0@ == path,
                None => r is Default,
            },
        },
{
    if let Some(path) = explicit {
        return ConfigSource::File(path);
    }
    let ghost all = views(candidates@);
    let mut i: usize = 0;
    assert(all.skip(0) =~= all);
    assert(existing@.skip(0) =~= existing@);
    while i < candidates.len()
        invariant
            i <= candidates@.len(),
            candidates@.len() == existing@.len(),
            all == views(candidates@),
            explicit is None,
            first_existing(all, existing@) == first_existing(
                all.skip(i as int),
                existing@.skip(i as int),
            ),
        decreases candidates@.len() - i,
    {
        assert(all.skip(i as int)[0] == candidates@[i as int]@);
        assert(existing@.skip(i as int)[0] == existing@[i as int]);
        if existing[i] {
            return ConfigSource::File(candidates[i].clone());
        }
        assert(all.skip(i as int).drop_first() =~= all.skip(i + 1));
        assert(existing@.skip(i as int).drop_first() =~= existing@.skip(i + 1));
        i += 1;
    }
    ConfigSource::Default
}

/// A path below a directory.
pub open spec fn below(directory: Seq<char>, path: Seq<char>) -> Seq<char> {
    if directory.len() == 0 || directory.last() == '/' {
        directory + path
    } else {
        directory + "/"@ + path
    }
}

/// A path below a directory.
pub fn path_below(directory: &str, path: &str) -> (r: String)
    ensures
        r@ == below(directory@, path@),
{
    let n: usize = directory.unicode_len();
    let mut out = directory.to_owned();
    if n > 0 && directory.get_char(n - 1) != '/' {
        out.append("/");
    }
    out.append(path);
    assert(out@ =~= below(directory@, path@));
    out
}

/// Default config file candidates when no path is set.
pub fn default_config_paths(home: Option<&str>) -> (r: Vec<String>)
    ensures
        views(r@) == (match home {
            Some(home) => seq!["iris.toml"@, below(home@, ".config/iris/config.toml"@)],
            None => seq!["iris.toml"@],
        }),
{
    let mut paths: Vec<String> = Vec::new();
    paths.push("iris.toml".to_owned());
    match home {
        Some(home) => {
            paths.push(path_below(home, ".config/iris/config.toml"));
            assert(views(paths@) =~= seq!["iris.toml"@, below(home@, ".config/iris/config.toml"@)]);
        },
        None => {
            assert(views(paths@) =~= seq!["iris.toml"@]);
        },
    }
    paths
}

impl IrisConfig {
    /// Whether the mock provider stands in for a configuration: there is no file, and the
    /// environment declares no provider either.
    pub fn wants_mock(&self, has_config_file: bool) -> (r: bool)
        ensures
            r == (self.providers@.len() == 0 && !has_config_file),
    {
        self.providers.len() == 0 && !has_config_file
    }
}

/// A contact as a configured instance lists it.
pub open spec fn tagged_contact(contact: ContactView, id: Seq<char>) -> ContactView {
    ContactView { provider_instance: Some(id), ..contact }
}

/// Contacts as a configured instance lists them.
pub open spec fn tagged_contacts(contacts: Seq<ContactView>, id: Seq<char>) -> Seq<ContactView> {
    contacts.map_values(|contact: ContactView| tagged_contact(contact, id))
}

/// Threads as a configured instance lists them.
pub open spec fn tagged_threads(threads: Seq<ThreadView>, id: Seq<char>) -> Seq<ThreadView> {
    threads.map_values(
        |thread: ThreadView|
            ThreadView {
                provider_instance: Some(id),
                participants: tagged_contacts(thread.participants, id),
                ..thread
            },
    )
}

/// Marks contacts with the instance that lists them.
pub fn tag_contacts(contacts: Vec<Contact>, id: &str) -> (r: Vec<Contact>)
    ensures
        views(r@) == tagged_contacts(views(contacts@), id@),
{
    let ghost all = views(contacts@);
    let mut out: Vec<Contact> = Vec::new();
    for contact in it: contacts
        invariant
            it.seq() == contacts@,
            all == views(contacts@),
            out@.len() == it.index(),
            forall|j: int|
                0 <= j < it.index() ==> (#[trigger] out@[j])@ == tagged_contact(all[j], id@),
    {
        assert(all[it.index() as int] == contact@);
        let mut tagged = contact;
        tagged.provider_instance = Some(id.to_owned());
        out.push(tagged);
    }
    assert(views(out@) =~= tagged_contacts(all, id@));
    out
}

/// Marks threads and their participants with the instance that lists them.
pub fn tag_threads(threads: Vec<Thread>, id: &str) -> (r: Vec<Thread>)
    ensures
        views(r@) == tagged_threads(views(threads@), id@),
{
    let ghost all = views(threads@);
    let mut out: Vec<Thread> = Vec::new();
    for thread in it: threads
        invariant
            it.seq() == threads@,
            all == views(threads@),
            out@.len() == it.index(),
            forall|j: int|
                0 <= j < it.index() ==> (#[trigger] out@[j])@ == tagged_threads(all, id@)[j],
    {
        assert(all[it.index() as int] == thread@);
        let mut tagged = thread;
        tagged.provider_instance = Some(id.to_owned());
        tagged.participants = tag_contacts(tagged.participants, id);
        assert(tagged@ =~= tagged_threads(all, id@)[it.index() as int]);
        out.push(tagged);
    }
    assert(views(out@) =~= tagged_threads(all, id@));
    out
}

/// Scopes an audit event to a configured instance, so that providers of the same type do not
/// share provenance.
pub fn scope_event(event: AuditEvent, id: &str) -> (r: AuditEvent)
    ensures
        r@ == (AuditEventView { provider: id@, ..event@ }),
{
    let mut scoped = event;
    scoped.provider = id.to_owned();
    scoped
}

/// Every enabled instance has an id of its own: that of its type, or the type, a dot and the name
/// of the instance.
pub proof fn law_instance_ids_are_distinct(providers: Seq<(Seq<char>, ProviderView)>)
    requires
        name_fault(providers) is None,
        all_orderly(providers),
    ensures
        forall|i: int, j: int|
            0 <= i < j < enabled_entries(providers).len() ==> (#[trigger] enabled_entries(
                providers,
            )[i]).id != (#[trigger] enabled_entries(providers)[j]).id,
        forall|i: int|
            0 <= i < enabled_entries(providers).len() ==> entry_named(
                #[trigger] enabled_entries(providers)[i],
                providers,
            ),
    decreases providers.len(),
{
    if providers.len() > 0 {
        let front = providers.drop_last();
        let n = providers.len() - 1;
        let (name, provider) = providers.last();
        lemma_names_prefix(providers);
        assert(ordered(front)) by {
            assert forall|i: int, j: int| 0 <= i < j < front.len() implies text_before(
                (#[trigger] front[i]).0,
                (#[trigger] front[j]).0,
            ) by {
                assert(providers[i] == front[i] && providers[j] == front[j]);
            }
        }
        assert forall|i: int| 0 <= i < front.len() implies orderly((#[trigger] front[i]).1) by {
            assert(providers[i] == front[i]);
        }
        law_instance_ids_are_distinct(front);
        let before = enabled_entries(front);
        let own = entries_of(name, provider);
        let all = enabled_entries(providers);
        assert(all == before + own);
        assert(orderly(providers[n].1));
        lemma_own_entries(name, provider);
        assert forall|i: int, j: int| 0 <= i < j < all.len() implies (#[trigger] all[i]).id != (
        #[trigger] all[j]).id by {
            if j < before.len() {
                assert(all[i] == before[i] && all[j] == before[j]);
            } else if i >= before.len() {
                assert(all[i] == own[i - before.len()] && all[j] == own[j - before.len()]);
            } else {
                assert(all[i] == before[i] && all[j] == own[j - before.len()]);
                assert(entry_named(before[i], front));
                let k = choose|k: int|
                    0 <= k < front.len() && (#[trigger] front[k]).0 == before[i].provider_type;
                assert(providers[k] == front[k]);
                assert(text_before(providers[k].0, providers[n].0));
                lemma_text_irreflexive(name);
                assert(before[i].provider_type != own[j - before.len()].provider_type);
                lemma_id_type(before[i]);
                lemma_id_type(own[j - before.len()]);
            }
        }
        assert forall|i: int| 0 <= i < all.len() implies entry_named(#[trigger] all[i], providers) by {
            if i < before.len() {
                assert(all[i] == before[i]);
                assert(entry_named(before[i], front));
                let k = choose|k: int|
                    0 <= k < front.len() && (#[trigger] front[k]).0 == before[i].provider_type;
                assert(providers[k] == front[k]);
            } else {
                assert(all[i] == own[i - before.len()]);
                assert(providers[n].0 == all[i].provider_type);
            }
        }
    }
}

/// Whether an entry's type is one of the providers, an identifier, and what its id starts with.
pub open spec fn entry_named(entry: EntryView, providers: Seq<(Seq<char>, ProviderView)>) -> bool {
    &&& id_of_type(entry)
    &&& exists|k: int|
        0 <= k < providers.len() && (#[trigger] providers[k]).0 == entry.provider_type
}

/// Whether an entry's type is an identifier, and its id the type alone or before a dot.
pub open spec fn id_of_type(entry: EntryView) -> bool {
    &&& identifier(entry.provider_type)
    &&& entry.id == entry.provider_type || exists|instance: Seq<char>|
        #![trigger instance_id(entry.provider_type, instance)]
        entry.id == instance_id(entry.provider_type, instance)
}

proof fn lemma_names_prefix(providers: Seq<(Seq<char>, ProviderView)>)
    requires
        name_fault(providers) is None,
        providers.len() > 0,
    ensures
        name_fault(providers.drop_last()) is None,
        identifier(providers.last().0),
    decreases providers.len(),
{
    let front = providers.drop_last();
    if front.len() > 0 {
        let rest = providers.drop_first();
        lemma_names_prefix(rest);
        assert(front.drop_first() =~= rest.drop_last());
        assert(front[0] == providers[0]);
        assert(rest.last() == providers.last());
    } else {
        assert(providers[0] == providers.last());
    }
}

/// Where the first dot of an id stands: behind its type.
proof fn lemma_id_type(entry: EntryView)
    requires
        id_of_type(entry),
    ensures
        first_index(entry.id, '.') == entry.provider_type.len(),
        entry.provider_type == entry.id.take(first_index(entry.id, '.')),
{
    reveal_strlit(".");
    let t = entry.provider_type;
    assert forall|i: int| 0 <= i < t.len() implies t[i] != '.' by {
        assert(identifier_char(t[i]));
    }
    if entry.id == t {
        lemma_first_index_unique(entry.id, '.', t.len() as int);
        assert(entry.id.take(t.len() as int) =~= t);
    } else {
        let instance = choose|instance: Seq<char>|
            #![trigger instance_id(t, instance)]
            entry.id == instance_id(t, instance);
        assert(entry.id[t.len() as int] == '.');
        assert forall|i: int| 0 <= i < t.len() implies entry.id[i] != '.' by {
            assert(entry.id[i] == t[i]);
        }
        lemma_first_index_unique(entry.id, '.', t.len() as int);
        assert(entry.id.take(t.len() as int) =~= t);
    }
}

proof fn lemma_own_entries(name: Seq<char>, provider: ProviderView)
    requires
        identifier(name),
        ordered(provider.instances),
    ensures
        forall|i: int|
            0 <= i < entries_of(name, provider).len() ==> (#[trigger] entries_of(name, provider)[i]).provider_type
                == name && id_of_type(entries_of(name, provider)[i]),
        forall|i: int, j: int|
            0 <= i < j < entries_of(name, provider).len() ==> (#[trigger] entries_of(
                name,
                provider,
            )[i]).id != (#[trigger] entries_of(name, provider)[j]).id,
{
    let all = entries_of(name, provider);
    let named = enabled_instances(name, provider.instances);
    lemma_named_entries(name, provider.instances);
    let d = all.len() - named.len();
    assert forall|i: int| 0 <= i < all.len() implies (#[trigger] all[i]).provider_type == name
        && id_of_type(all[i]) by {
        if i >= d {
            assert(all[i] == named[i - d]);
        }
    }
    assert forall|i: int, j: int| 0 <= i < j < all.len() implies (#[trigger] all[i]).id != (
    #[trigger] all[j]).id by {
        assert(all[j] == named[j - d]);
        if i >= d {
            assert(all[i] == named[i - d]);
        } else {
            assert(all[i].id == name);
            let k = choose|k: int|
                0 <= k < provider.instances.len() && named[j - d].id == instance_id(
                    name,
                    (#[trigger] provider.instances[k]).0,
                );
            assert(instance_id(name, provider.instances[k].0).len() > name.len()) by {
                reveal_strlit(".");
            }
        }
    }
}

proof fn lemma_named_entries(name: Seq<char>, instances: Seq<(Seq<char>, ProviderView)>)
    requires
        identifier(name),
        ordered(instances),
    ensures
        forall|i: int|
            0 <= i < enabled_instances(name, instances).len() ==> (#[trigger] enabled_instances(
                name,
                instances,
            )[i]).provider_type == name && id_of_type(enabled_instances(name, instances)[i])
                && exists|k: int|
                0 <= k < instances.len() && enabled_instances(name, instances)[i].id == instance_id(
                    name,
                    (#[trigger] instances[k]).0,
                ),
        forall|i: int, j: int|
            0 <= i < j < enabled_instances(name, instances).len() ==> (#[trigger] enabled_instances(
                name,
                instances,
            )[i]).id != (#[trigger] enabled_instances(name, instances)[j]).id,
    decreases instances.len(),
{
    if instances.len() > 0 {
        let front = instances.drop_last();
        let n = instances.len() - 1;
        assert(ordered(front)) by {
            assert forall|i: int, j: int| 0 <= i < j < front.len() implies text_before(
                (#[trigger] front[i]).0,
                (#[trigger] front[j]).0,
            ) by {
                assert(instances[i] == front[i] && instances[j] == front[j]);
            }
        }
        lemma_named_entries(name, front);
        let before = enabled_instances(name, front);
        let all = enabled_instances(name, instances);
        assert forall|i: int| 0 <= i < all.len() implies (#[trigger] all[i]).provider_type == name
            && id_of_type(all[i]) && exists|k: int|
            0 <= k < instances.len() && all[i].id == instance_id(name, (#[trigger] instances[k]).0) by {
            if i < before.len() {
                assert(all[i] == before[i]);
                let k = choose|k: int|
                    0 <= k < front.len() && before[i].id == instance_id(
                        name,
                        (#[trigger] front[k]).0,
                    );
                assert(instances[k] == front[k]);
            } else {
                assert(all[i].id == instance_id(name, instances[n].0));
            }
        }
        assert forall|i: int, j: int| 0 <= i < j < all.len() implies (#[trigger] all[i]).id != (
        #[trigger] all[j]).id by {
            assert(all[i] == before[i]);
            if j < before.len() {
                assert(all[j] == before[j]);
            } else {
                let k = choose|k: int|
                    0 <= k < front.len() && before[i].id == instance_id(
                        name,
                        (#[trigger] front[k]).0,
                    );
                assert(instances[k] == front[k]);
                assert(text_before(instances[k].0, instances[n].0));
                lemma_text_irreflexive(instances[n].0);
                lemma_instance_id(name, instances[k].0, instances[n].0);
            }
        }
    }
}

proof fn lemma_instance_id(name: Seq<char>, first: Seq<char>, second: Seq<char>)
    requires
        first != second,
    ensures
        instance_id(name, first) != instance_id(name, second),
{
    reveal_strlit(".");
    let a = instance_id(name, first);
    let b = instance_id(name, second);
    let n = name.len() + 1;
    assert(a.skip(n as int) =~= first);
    assert(b.skip(n as int) =~= second);
}

/// Whether a provider type enables an instance under an id.
pub open spec fn enables(provider_type: Seq<char>, provider: ProviderView, id: Seq<char>) -> bool {
    ||| default_enabled(provider) && id == provider_type
    ||| exists|m: int|
        0 <= m < provider.instances.len() && (#[trigger] provider.instances[m]).1.enabled && id
            == instance_id(provider_type, provider.instances[m].0)
}

/// Whether an entry among some has an id.
pub open spec fn listed(entries: Seq<EntryView>, id: Seq<char>) -> bool {
    exists|k: int| 0 <= k < entries.len() && (#[trigger] entries[k]).id == id
}

proof fn lemma_listed_sum(first: Seq<EntryView>, second: Seq<EntryView>, id: Seq<char>)
    ensures
        listed(first + second, id) <==> listed(first, id) || listed(second, id),
{
    let all = first + second;
    if listed(first, id) {
        let k = choose|k: int| 0 <= k < first.len() && (#[trigger] first[k]).id == id;
        assert(all[k] == first[k]);
    }
    if listed(second, id) {
        let k = choose|k: int| 0 <= k < second.len() && (#[trigger] second[k]).id == id;
        assert(all[first.len() + k] == second[k]);
    }
    if listed(all, id) {
        let k = choose|k: int| 0 <= k < all.len() && (#[trigger] all[k]).id == id;
        if k < first.len() {
            assert(first[k] == all[k]);
        } else {
            assert(second[k - first.len()] == all[k]);
        }
    }
}

proof fn lemma_listed_instances(
    provider_type: Seq<char>,
    instances: Seq<(Seq<char>, ProviderView)>,
    id: Seq<char>,
)
    ensures
        listed(enabled_instances(provider_type, instances), id) <==> exists|m: int|
            0 <= m < instances.len() && (#[trigger] instances[m]).1.enabled && id == instance_id(
                provider_type,
                instances[m].0,
            ),
    decreases instances.len(),
{
    if instances.len() > 0 {
        let front = instances.drop_last();
        let n = instances.len() - 1;
        lemma_listed_instances(provider_type, front, id);
        let before = enabled_instances(provider_type, front);
        let all = enabled_instances(provider_type, instances);
        if all.len() > before.len() {
            assert(all =~= before + seq![all.last()]);
            lemma_listed_sum(before, seq![all.last()], id);
            assert(seq![all.last()][0] == all.last());
            assert(all.last().id == instance_id(provider_type, instances[n].0));
        }
        if exists|m: int|
            0 <= m < front.len() && (#[trigger] front[m]).1.enabled && id == instance_id(
                provider_type,
                front[m].0,
            ) {
            let m = choose|m: int|
                0 <= m < front.len() && (#[trigger] front[m]).1.enabled && id == instance_id(
                    provider_type,
                    front[m].0,
                );
            assert(instances[m] == front[m]);
        }
        if exists|m: int|
            0 <= m < instances.len() && (#[trigger] instances[m]).1.enabled && id == instance_id(
                provider_type,
                instances[m].0,
            ) {
            let m = choose|m: int|
                0 <= m < instances.len() && (#[trigger] instances[m]).1.enabled && id
                    == instance_id(provider_type, instances[m].0);
            if m < n {
                assert(front[m] == instances[m]);
            }
        }
        if listed(all, id) && !listed(before, id) {
            assert(instances[n].1.enabled);
        }
    }
}

/// The enabled instances are those that the provider types enable.
proof fn lemma_listed(providers: Seq<(Seq<char>, ProviderView)>, id: Seq<char>)
    ensures
        listed(enabled_entries(providers), id) <==> exists|j: int|
            0 <= j < providers.len() && enables(
                (#[trigger] providers[j]).0,
                providers[j].1,
                id,
            ),
    decreases providers.len(),
{
    if providers.len() > 0 {
        let front = providers.drop_last();
        let n = providers.len() - 1;
        let (name, provider) = providers.last();
        lemma_listed(front, id);
        let own = entries_of(name, provider);
        lemma_listed_sum(enabled_entries(front), own, id);
        lemma_listed_instances(name, provider.instances, id);
        let default = if default_enabled(provider) {
            seq![EntryView { id: name, provider_type: name, credentials: provider.credentials }]
        } else {
            seq![]
        };
        lemma_listed_sum(default, enabled_instances(name, provider.instances), id);
        if default_enabled(provider) {
            assert(default[0].id == name);
        }
        assert(listed(own, id) <==> enables(name, provider, id));
        assert(providers[n] == (name, provider));
        if exists|j: int|
            0 <= j < front.len() && enables((#[trigger] front[j]).0, front[j].1, id) {
            let j = choose|j: int|
                0 <= j < front.len() && enables((#[trigger] front[j]).0, front[j].1, id);
            assert(providers[j] == front[j]);
        }
        if exists|j: int|
            0 <= j < providers.len() && enables((#[trigger] providers[j]).0, providers[j].1, id) {
            let j = choose|j: int|
                0 <= j < providers.len() && enables(
                    (#[trigger] providers[j]).0,
                    providers[j].1,
                    id,
                );
            if j < n {
                assert(front[j] == providers[j]);
            }
        }
    }
}

/// The instance id that a listed id stands for.
pub open spec fn configured_id(id: Seq<char>) -> Seq<char> {
    if instance_part(id).len() == 0 {
        type_part(id)
    } else {
        instance_id(type_part(id), instance_part(id))
    }
}

/// Where the environment selects providers, exactly the listed ids are enabled, the default
/// instance of a type also beside named ones and without credentials.
pub proof fn law_a_selection_is_exact(
    providers: Seq<(Seq<char>, ProviderView)>,
    variables: Seq<(Seq<char>, EnvValue)>,
    id: Seq<char>,
)
    requires
        all_orderly(providers),
        variable_text(variables, ENABLED_PROVIDERS_ENV@) is Ok,
        overridden(providers, variables).1 is None,
    ensures
        listed(enabled_entries(overridden(providers, variables).0), id) <==> exists|i: int|
            0 <= i < listed_ids(
                split_on(variable_text(variables, ENABLED_PROVIDERS_ENV@)->Ok_0, ','),
            ).len() && configured_id(
                #[trigger] listed_ids(
                    split_on(variable_text(variables, ENABLED_PROVIDERS_ENV@)->Ok_0, ','),
                )[i],
            ) == id,
{
    let ids = listed_ids(split_on(variable_text(variables, ENABLED_PROVIDERS_ENV@)->Ok_0, ','));
    let chosen = select_all(disabled(providers), ids).0;
    let last = overridden(providers, variables).0;
    assert(last == overlaid_providers(chosen, variables));
    law_selection_enables_what_it_names(providers, ids);
    law_overrides_keep_the_order(providers, variables);
    lemma_overlay_keeps_names(chosen, variables);
    lemma_listed(last, id);
    if exists|j: int| 0 <= j < last.len() && enables((#[trigger] last[j]).0, last[j].1, id) {
        let j = choose|j: int|
            0 <= j < last.len() && enables((#[trigger] last[j]).0, last[j].1, id);
        let (t, p) = chosen[j];
        lemma_find_at(chosen, j);
        assert(find(chosen, t) == Some(p));
        if default_enabled(last[j].1) && id == t {
            assert(names_default(ids, t));
            let i = choose|i: int|
                0 <= i < ids.len() && type_part(#[trigger] ids[i]) == t && instance_part(
                    ids[i],
                ).len() == 0;
            assert(configured_id(ids[i]) == id);
        } else {
            let m = choose|m: int|
                0 <= m < last[j].1.instances.len() && (
                #[trigger] last[j].1.instances[m]).1.enabled && id == instance_id(
                    t,
                    last[j].1.instances[m].0,
                );
            let n = p.instances[m].0;
            assert(orderly(p));
            lemma_find_at(p.instances, m);
            assert(enabled_instance(chosen, t, n));
            assert(names_instance(ids, t, n));
            let i = choose|i: int|
                0 <= i < ids.len() && type_part(#[trigger] ids[i]) == t && instance_part(ids[i])
                    == n && n.len() > 0;
            assert(configured_id(ids[i]) == id);
        }
    }
    if exists|i: int| 0 <= i < ids.len() && configured_id(#[trigger] ids[i]) == id {
        let i = choose|i: int| 0 <= i < ids.len() && configured_id(#[trigger] ids[i]) == id;
        let t = type_part(ids[i]);
        let n = instance_part(ids[i]);
        assert(find(chosen, t) is Some);
        lemma_found(chosen, t);
        let p = find(chosen, t)->0;
        let j = choose|j: int|
            0 <= j < chosen.len() && (#[trigger] chosen[j]).0 == t && chosen[j].1 == p;
        assert(last[j].0 == t);
        if n.len() == 0 {
            assert(names_default(ids, t));
            assert(default_enabled(last[j].1));
        } else {
            assert(names_instance(ids, t, n));
            assert(enabled_instance(chosen, t, n));
            lemma_found(p.instances, n);
            let m = choose|m: int|
                0 <= m < p.instances.len() && (#[trigger] p.instances[m]).0 == n
                    && p.instances[m].1 == find(p.instances, n)->0;
            assert(last[j].1.instances[m].1.enabled);
        }
        assert(enables(last[j].0, last[j].1, id));
    }
}

/// What is enabled is listed: a provider by its type, where it is enabled and is selected, has
/// credentials or has no instances; an instance by the type, a dot and its name.
pub proof fn law_what_is_enabled_is_listed(
    providers: Seq<(Seq<char>, ProviderView)>,
    id: Seq<char>,
)
    ensures
        listed(enabled_entries(providers), id) <==> exists|j: int|
            0 <= j < providers.len() && {
                let (name, provider) = #[trigger] providers[j];
                ||| id == name && provider.enabled && (provider.selected
                    || provider.instances.len() == 0 || provider.credentials.len() > 0)
                ||| exists|m: int|
                    0 <= m < provider.instances.len() && (#[trigger] provider.instances[m]).1.enabled
                        && id == name + "."@ + provider.instances[m].0
            },
{
    lemma_listed(providers, id);
    if listed(enabled_entries(providers), id) {
        let j = choose|j: int|
            0 <= j < providers.len() && enables((#[trigger] providers[j]).0, providers[j].1, id);
        let (name, provider) = providers[j];
        if !(default_enabled(provider) && id == name) {
            let m = choose|m: int|
                0 <= m < provider.instances.len() && (#[trigger] provider.instances[m]).1.enabled
                    && id == instance_id(name, provider.instances[m].0);
            assert(provider.instances[m].1.enabled && id == name + "."@ + provider.instances[m].0);
        }
    }
    if exists|j: int|
        0 <= j < providers.len() && {
            let (name, provider) = #[trigger] providers[j];
            ||| id == name && provider.enabled && (provider.selected || provider.instances.len()
                == 0 || provider.credentials.len() > 0)
            ||| exists|m: int|
                0 <= m < provider.instances.len() && (#[trigger] provider.instances[m]).1.enabled
                    && id == name + "."@ + provider.instances[m].0
        } {
        let j = choose|j: int|
            0 <= j < providers.len() && {
                let (name, provider) = #[trigger] providers[j];
                ||| id == name && provider.enabled && (provider.selected
                    || provider.instances.len() == 0 || provider.credentials.len() > 0)
                ||| exists|m: int|
                    0 <= m < provider.instances.len() && (#[trigger] provider.instances[m]).1.enabled
                        && id == name + "."@ + provider.instances[m].0
            };
        let (name, provider) = providers[j];
        if !(default_enabled(provider) && id == name) {
            let m = choose|m: int|
                0 <= m < provider.instances.len() && (#[trigger] provider.instances[m]).1.enabled
                    && id == name + "."@ + provider.instances[m].0;
            assert(provider.instances[m].1.enabled && id == instance_id(
                name,
                provider.instances[m].0,
            ));
        }
        assert(enables(providers[j].0, providers[j].1, id));
    }
}

/// Each entry has the credentials of its own instance, and the entries of a provider come in the
/// order of their instances behind the provider itself.
pub proof fn law_entries_have_their_own_credentials(
    provider_type: Seq<char>,
    provider: ProviderView,
)
    ensures
        ({
            let own = provider.enabled && (provider.selected || provider.instances.len() == 0
                || provider.credentials.len() > 0);
            let instances = provider.instances.filter(
                |entry: (Seq<char>, ProviderView)| entry.1.enabled,
            ).map_values(
                |entry: (Seq<char>, ProviderView)|
                    EntryView {
                        id: provider_type + "."@ + entry.0,
                        provider_type,
                        credentials: entry.1.credentials,
                    },
            );
            let default = EntryView {
                id: provider_type,
                provider_type,
                credentials: provider.credentials,
            };
            entries_of(provider_type, provider) == if own {
                seq![default] + instances
            } else {
                instances
            }
        }),
{
    lemma_enabled_instances(provider_type, provider.instances);
    let instances = enabled_instances(provider_type, provider.instances);
    assert(Seq::<EntryView>::empty() + instances =~= instances);
}

proof fn lemma_enabled_instances(
    provider_type: Seq<char>,
    instances: Seq<(Seq<char>, ProviderView)>,
)
    ensures
        enabled_instances(provider_type, instances) == instances.filter(
            |entry: (Seq<char>, ProviderView)| entry.1.enabled,
        ).map_values(
            |entry: (Seq<char>, ProviderView)|
                EntryView {
                    id: provider_type + "."@ + entry.0,
                    provider_type,
                    credentials: entry.1.credentials,
                },
        ),
    decreases instances.len(),
{
    reveal(Seq::filter);
    let ok = |entry: (Seq<char>, ProviderView)| entry.1.enabled;
    let f = |entry: (Seq<char>, ProviderView)|
        EntryView {
            id: provider_type + "."@ + entry.0,
            provider_type,
            credentials: entry.1.credentials,
        };
    if instances.len() > 0 {
        lemma_enabled_instances(provider_type, instances.drop_last());
        if ok(instances.last()) {
            assert(instances.filter(ok).map_values(f) =~= instances.drop_last().filter(
                ok,
            ).map_values(f).push(f(instances.last())));
        }
    } else {
        assert(instances.filter(ok).map_values(f) =~= seq![]);
    }
}

/// A configuration is resolved where its names are identifiers and the credentials of each entry
/// are; each entry keeps its ID and its type.
pub proof fn law_every_entry_is_resolved(
    entries: Seq<EntryView>,
    variables: Seq<(Seq<char>, EnvValue)>,
)
    ensures
        resolved_entries(entries, variables) is Ok <==> forall|i: int|
            0 <= i < entries.len() ==> resolved_credentials(
                (#[trigger] entries[i]).credentials,
                variables,
            ) is Ok,
        resolved_entries(entries, variables) matches Ok(done) ==> done.len() == entries.len()
            && forall|i: int|
            0 <= i < done.len() ==> (#[trigger] done[i]).id == entries[i].id
                && done[i].provider_type == entries[i].provider_type && resolved_credentials(
                entries[i].credentials,
                variables,
            ) == Ok::<Seq<(Seq<char>, Seq<char>)>, Seq<char>>(done[i].credentials),
    decreases entries.len(),
{
    if entries.len() > 0 {
        let front = entries.drop_last();
        law_every_entry_is_resolved(front, variables);
        if forall|i: int|
            0 <= i < entries.len() ==> resolved_credentials(
                (#[trigger] entries[i]).credentials,
                variables,
            ) is Ok {
            assert forall|i: int| 0 <= i < front.len() implies resolved_credentials(
                (#[trigger] front[i]).credentials,
                variables,
            ) is Ok by {
                assert(entries[i] == front[i]);
            }
            assert(entries[entries.len() - 1] == entries.last());
        }
        if resolved_entries(entries, variables) is Ok {
            assert forall|i: int| 0 <= i < entries.len() implies resolved_credentials(
                (#[trigger] entries[i]).credentials,
                variables,
            ) is Ok by {
                if i < front.len() {
                    assert(front[i] == entries[i]);
                }
            }
        }
    }
}

/// A provider is built by its type out of its own credentials; a type that is not known is refused.
pub proof fn law_providers_are_built_by_their_type(
    id: Seq<char>,
    provider_type: Seq<char>,
    credentials: Seq<(Seq<char>, Seq<char>)>,
)
    ensures
        ({
            let r = built(ResolvedView { id, provider_type, credentials });
            &&& provider_type == "mock"@ ==> r == Ok::<BuiltView, Seq<char>>(BuiltView::Mock)
            &&& provider_type == "telegram"@ ==> (r is Ok <==> provider_from(credentials) is Ok)
                && (provider_from(credentials) matches Ok((token, url)) ==> r == Ok::<
                BuiltView,
                Seq<char>,
            >(BuiltView::Telegram { bot_token: token, base_url: url }))
            &&& provider_type == "email"@ ==> (r is Ok <==> settings_from(credentials) is Ok) && (
            settings_from(credentials) matches Ok(settings) ==> r == Ok::<BuiltView, Seq<char>>(
                BuiltView::Email(settings),
            ))
            &&& provider_type == "sms"@ ==> (r is Ok <==> crate::sms::settings_from(
                credentials,
            ) is Ok) && (crate::sms::settings_from(credentials) matches Ok(settings) ==> r == Ok::<
                BuiltView,
                Seq<char>,
            >(BuiltView::Sms(settings)))
            &&& provider_type != "mock"@ && provider_type != "telegram"@ && provider_type
                != "email"@ && provider_type != "sms"@ ==> r == Err::<BuiltView, Seq<char>>(
                "provider is configured but not available in this build: "@ + provider_type,
            )
        }),
{
    reveal_strlit("mock");
    reveal_strlit("telegram");
    reveal_strlit("email");
    reveal_strlit("sms");
    assert("mock"@.len() == 4 && "telegram"@.len() == 8 && "email"@.len() == 5 && "sms"@.len()
        == 3);
}

/// Instances are built where each of them is, in their order and under their IDs.
pub proof fn law_every_instance_is_built(entries: Seq<ResolvedView>)
    ensures
        built_instances(entries) is Ok <==> forall|i: int|
            0 <= i < entries.len() ==> built(#[trigger] entries[i]) is Ok,
        built_instances(entries) matches Ok(done) ==> done.len() == entries.len() && forall|i: int|
            0 <= i < done.len() ==> (#[trigger] done[i]).id == entries[i].id && built(entries[i])
                == Ok::<BuiltView, Seq<char>>(done[i].provider),
    decreases entries.len(),
{
    if entries.len() > 0 {
        let front = entries.drop_last();
        law_every_instance_is_built(front);
        if forall|i: int| 0 <= i < entries.len() ==> built(#[trigger] entries[i]) is Ok {
            assert forall|i: int| 0 <= i < front.len() implies built(#[trigger] front[i]) is Ok by {
                assert(entries[i] == front[i]);
            }
            assert(entries[entries.len() - 1] == entries.last());
        }
        if built_instances(entries) is Ok {
            assert forall|i: int| 0 <= i < entries.len() implies built(
                #[trigger] entries[i],
            ) is Ok by {
                if i < front.len() {
                    assert(front[i] == entries[i]);
                }
            }
        }
    }
}

/// Of some places the first that is there is taken.
pub proof fn law_the_first_place_that_is_there_is_taken(
    candidates: Seq<Seq<char>>,
    there: Seq<bool>,
    k: int,
)
    requires
        there.len() == candidates.len(),
    ensures
        0 <= k < candidates.len() && there[k] && (forall|j: int| 0 <= j < k ==> !#[trigger] there[j])
            ==> first_existing(candidates, there) == Some(candidates[k]),
        (forall|j: int| 0 <= j < there.len() ==> !#[trigger] there[j]) ==> first_existing(
            candidates,
            there,
        ) is None,
    decreases candidates.len(),
{
    if candidates.len() > 0 {
        let rest = there.drop_first();
        law_the_first_place_that_is_there_is_taken(candidates.drop_first(), rest, k - 1);
        assert forall|j: int| 0 <= j < rest.len() implies #[trigger] rest[j] == there[j + 1] by {}
    }
}

/// Tagging changes nothing but the instance that a contact or a thread, with its participants,
/// comes from.
pub proof fn law_tags_name_the_instance(
    contacts: Seq<ContactView>,
    threads: Seq<ThreadView>,
    id: Seq<char>,
    i: int,
)
    ensures
        tagged_contacts(contacts, id).len() == contacts.len(),
        tagged_threads(threads, id).len() == threads.len(),
        0 <= i < contacts.len() ==> tagged_contacts(contacts, id)[i].provider_instance == Some(id)
            && (ContactView {
            provider_instance: contacts[i].provider_instance,
            ..tagged_contacts(contacts, id)[i]
        }) == contacts[i],
        0 <= i < threads.len() ==> tagged_threads(threads, id)[i].provider_instance == Some(id)
            && tagged_threads(threads, id)[i].participants == tagged_contacts(
            threads[i].participants,
            id,
        ) && (ThreadView {
            provider_instance: threads[i].provider_instance,
            participants: threads[i].participants,
            ..tagged_threads(threads, id)[i]
        }) == threads[i],
{
}

/// A path stands behind its directory, with one slash between them.
pub proof fn law_paths_stand_behind_their_directory(directory: Seq<char>, path: Seq<char>)
    ensures
        below(directory.push('/'), path) == directory + seq!['/'] + path,
        directory.len() > 0 && directory.last() != '/' ==> below(directory, path) == directory
            + seq!['/'] + path,
        below(seq![], path) == path,
{
    reveal_strlit("/");
    assert("/"@ =~= seq!['/']);
    assert(directory.push('/') + path =~= directory + seq!['/'] + path);
    assert(Seq::<char>::empty() + path =~= path);
}

/// A configuration with a name that is no identifier is refused before anything is resolved; any
/// other is resolved by its enabled entries.
pub proof fn law_faulty_names_are_refused(
    providers: Seq<(Seq<char>, ProviderView)>,
    variables: Seq<(Seq<char>, EnvValue)>,
)
    ensures
        name_fault(providers) matches Some(fault) ==> resolved(providers, variables) == Err::<
            Seq<ResolvedView>,
            Seq<char>,
        >(fault),
        name_fault(providers) is None ==> resolved(providers, variables) == resolved_entries(
            enabled_entries(providers),
            variables,
        ),
        (exists|i: int| 0 <= i < providers.len() && !identifier((#[trigger] providers[i]).0))
            ==> resolved(providers, variables) is Err,
{
    law_every_name_is_an_identifier(providers);
}

} // verus!
