//! Provider configuration and registry construction.
//!
//! A configuration file and the environment decide which built-in providers are enabled. Secrets
//! may stand in the file for local development, or name an environment variable, which keeps
//! credentials out of files.

pub mod registry;
pub mod selection;

use vstd::prelude::*;
use crate::error::prefixed;
use crate::maps::{find, lemma_put_last, ordered, value_views, StringMap};
use crate::order::text_before;
use crate::text::{blank, chars_of, is_blank, view_result, view_unit, views};

verus! {

/// Environment variable used to point Iris at a config file.
pub const CONFIG_PATH_ENV: &'static str = "IRIS_CONFIG";

/// Comma-separated provider ids enabled by environment configuration.
pub const ENABLED_PROVIDERS_ENV: &'static str = "IRIS_ENABLED_PROVIDERS";

/// Why a configuration cannot be used.
#[derive(Debug, PartialEq, Eq)]
pub struct ConfigError {
    pub message: String,
}

impl View for ConfigError {
    type V = Seq<char>;

    open spec fn view(&self) -> Seq<char> {
        self.message@
    }
}

impl ConfigError {
    /// The error in words.
    pub fn describe(&self) -> (r: String)
        ensures
            r@ == self@,
    {
        self.message.clone()
    }
}

/// What an environment variable holds.
#[derive(Debug, PartialEq, Eq)]
pub enum EnvValue {
    /// A text.
    Text(String),
    /// Something that is no text, described.
    NotUnicode(String),
}

/// The environment variables of a process.
#[derive(Debug)]
pub struct Environment {
    pub variables: StringMap<EnvValue>,
}

/// The text of a variable, or why it has none.
pub open spec fn variable_text(variables: Seq<(Seq<char>, EnvValue)>, name: Seq<char>) -> Result<
    Seq<char>,
    Seq<char>,
> {
    match find(variables, name) {
        Some(EnvValue::Text(text)) => Ok(text@),
        Some(EnvValue::NotUnicode(what)) => Err(
            "environment variable was not valid unicode: "@ + what@,
        ),
        None => Err("environment variable not found"@),
    }
}

/// Whether a variable is set, to whatever value.
pub open spec fn is_set(variables: Seq<(Seq<char>, EnvValue)>, name: Seq<char>) -> bool {
    find(variables, name) is Some
}

impl Environment {
    /// An environment without variables.
    pub fn new() -> (r: Environment)
        ensures
            r.variables.pairs() == Seq::<(Seq<char>, EnvValue)>::empty(),
    {
        Environment { variables: StringMap::new() }
    }

    /// The text of a variable, or why it has none.
    pub fn var(&self, name: &str) -> (r: Result<String, String>)
        ensures
            view_result(r) == variable_text(self.variables.pairs(), name@),
    {
        match self.variables.get(name) {
            Some(EnvValue::Text(text)) => Ok(text.clone()),
            Some(EnvValue::NotUnicode(what)) => Err(
                prefixed("environment variable was not valid unicode: ", what.as_str()),
            ),
            None => Err("environment variable not found".to_owned()),
        }
    }

    /// Whether a variable is set, to whatever value.
    pub fn has(&self, name: &str) -> (r: bool)
        ensures
            r == is_set(self.variables.pairs(), name@),
    {
        self.variables.contains_key(name)
    }
}

/// Secret or option value loaded from config.
#[derive(Debug, PartialEq, Eq)]
pub enum SecretValue {
    /// Inline literal value.
    Inline(String),
    /// Value loaded from an environment variable.
    FromEnv { env: String },
}

/// The mathematical value of a secret.
#[verifier::ext_equal]
pub enum SecretView {
    Inline(Seq<char>),
    FromEnv { env: Seq<char> },
}

impl View for SecretValue {
    type V = SecretView;

    open spec fn view(&self) -> SecretView {
        match *self {
            SecretValue::Inline(value) => SecretView::Inline(value@),
            SecretValue::FromEnv { env } => SecretView::FromEnv { env: env@ },
        }
    }
}

/// What a secret stands for, or why that cannot be read.
pub open spec fn secret_text(secret: SecretView, variables: Seq<(Seq<char>, EnvValue)>) -> Result<
    Seq<char>,
    Seq<char>,
> {
    match secret {
        SecretView::Inline(value) => Ok(value),
        SecretView::FromEnv { env } => match variable_text(variables, env) {
            Ok(value) => Ok(value),
            Err(error) => Err(
                "failed to read environment variable "@ + env + ": "@ + error,
            ),
        },
    }
}

impl SecretValue {
    /// Resolve a secret value, reading from the environment when requested.
    pub fn resolve(&self, environment: &Environment) -> (r: Result<String, ConfigError>)
        ensures
            view_result(r) == secret_text(self@, environment.variables.pairs()),
    {
        match self {
            SecretValue::Inline(value) => Ok(value.clone()),
            SecretValue::FromEnv { env } => match environment.var(env.as_str()) {
                Ok(value) => Ok(value),
                Err(error) => {
                    let mut message = prefixed("failed to read environment variable ", env.as_str());
                    message.append(": ");
                    message.append(error.as_str());
                    Err(ConfigError { message })
                },
            },
        }
    }
}

/// Configuration for normalized batch ingestion.
#[derive(Debug, PartialEq, Eq)]
pub struct IngestConfig {
    /// Sources permitted to submit normalized batches.
    pub sources: Vec<String>,
    /// Per-source bearer secrets.
    pub secrets: StringMap<SecretValue>,
}

impl Default for IngestConfig {
    fn default() -> (r: IngestConfig)
        ensures
            views(r.sources@) == seq!["herdr"@],
            value_views(r.secrets.pairs()) == Seq::<(Seq<char>, SecretView)>::empty(),
    {
        let mut sources: Vec<String> = Vec::new();
        sources.push("herdr".to_owned());
        assert(views(sources@) =~= seq!["herdr"@]);
        let secrets: StringMap<SecretValue> = StringMap::new();
        assert(value_views(secrets.pairs()) =~= Seq::<(Seq<char>, SecretView)>::empty());
        IngestConfig { sources, secrets }
    }
}

/// Configuration for one provider.
#[derive(Debug, PartialEq, Eq)]
pub struct ProviderConfig {
    /// Whether the provider should be registered.
    pub enabled: bool,
    /// Whether the environment selected the provider by its id.
    pub selected: bool,
    /// Provider credentials and options.
    pub credentials: StringMap<SecretValue>,
    /// Named instances of this provider type, in the order of their names. The enclosing
    /// declaration is the default instance.
    pub instances: Vec<(String, ProviderConfig)>,
}

/// The mathematical value of a provider's configuration.
#[verifier::ext_equal]
pub struct ProviderView {
    pub enabled: bool,
    pub selected: bool,
    pub credentials: Seq<(Seq<char>, SecretView)>,
    pub instances: Seq<(Seq<char>, ProviderView)>,
}

/// The view of a provider's configuration.
pub open spec fn provider_view(provider: ProviderConfig) -> ProviderView
    decreases provider,
{
    ProviderView {
        enabled: provider.enabled,
        selected: provider.selected,
        credentials: value_views(provider.credentials.pairs()),
        instances: Seq::new(
            provider.instances@.len(),
            |i: int|
                if 0 <= i < provider.instances@.len() {
                    (provider.instances@[i].0@, provider_view(provider.instances@[i].1))
                } else {
                    arbitrary()
                },
        ),
    }
}

impl View for ProviderConfig {
    type V = ProviderView;

    open spec fn view(&self) -> ProviderView {
        provider_view(*self)
    }
}

/// The views of configurations under their names.
pub open spec fn config_views(entries: Seq<(String, ProviderConfig)>) -> Seq<
    (Seq<char>, ProviderView),
> {
    entries.map_values(|entry: (String, ProviderConfig)| (entry.0@, entry.1@))
}

/// A configuration's view holds the views of its instances.
pub proof fn lemma_instances(provider: ProviderConfig)
    ensures
        provider@.instances == config_views(provider.instances@),
        provider@.enabled == provider.enabled,
        provider@.selected == provider.selected,
        provider@.credentials == value_views(provider.credentials.pairs()),
{
    assert(provider@.instances =~= config_views(provider.instances@));
}

impl ProviderView {
    /// A configuration without anything.
    pub open spec fn bare(enabled: bool) -> ProviderView {
        ProviderView { enabled, selected: false, credentials: seq![], instances: seq![] }
    }
}

impl ProviderConfig {
    /// A configuration without credentials or instances.
    pub fn bare(enabled: bool) -> (r: ProviderConfig)
        ensures
            r@ == ProviderView::bare(enabled),
    {
        let r = ProviderConfig {
            enabled,
            selected: false,
            credentials: StringMap::new(),
            instances: Vec::new(),
        };
        proof {
            lemma_instances(r);
            assert(r@.credentials =~= seq![]);
            assert(r@.instances =~= seq![]);
        }
        r
    }
}

impl Default for ProviderConfig {
    fn default() -> (r: ProviderConfig)
        ensures
            r@ == ProviderView::bare(true),
    {
        ProviderConfig::bare(true)
    }
}

/// Whether the named instances of a configuration, and theirs in turn, stand in the order of their
/// names, and no name occurs twice.
pub open spec fn orderly(provider: ProviderView) -> bool
    decreases provider,
{
    &&& ordered(provider.instances)
    &&& forall|i: int|
        0 <= i < provider.instances.len() ==> orderly((#[trigger] provider.instances[i]).1)
}

/// Whether configurations stand in the order of their names, no name occurs twice, and the same
/// holds of their instances.
pub open spec fn all_orderly(providers: Seq<(Seq<char>, ProviderView)>) -> bool {
    &&& ordered(providers)
    &&& forall|i: int| 0 <= i < providers.len() ==> orderly((#[trigger] providers[i]).1)
}

/// Top-level Iris configuration.
#[derive(Debug, PartialEq, Eq)]
pub struct IrisConfig {
    /// Provider declarations, in the order of the provider ids.
    pub providers: Vec<(String, ProviderConfig)>,
    /// Source-authorized normalized batch ingestion configuration.
    pub ingest: IngestConfig,
}

impl IrisConfig {
    /// Whether provider types and named instances ascend, and none occurs twice.
    pub open spec fn valid(self) -> bool {
        all_orderly(config_views(self.providers@))
    }
}

impl Default for IrisConfig {
    fn default() -> (r: IrisConfig)
        ensures
            r.valid(),
            config_views(r.providers@) == Seq::<(Seq<char>, ProviderView)>::empty(),
            views(r.ingest.sources@) == seq!["herdr"@],
            value_views(r.ingest.secrets.pairs()) == Seq::<(Seq<char>, SecretView)>::empty(),
    {
        let providers: Vec<(String, ProviderConfig)> = Vec::new();
        assert(config_views(providers@) =~= Seq::<(Seq<char>, ProviderView)>::empty());
        IrisConfig { providers, ingest: IngestConfig::default() }
    }
}

/// Whether a text is an identifier: lower-case letters, digits and hyphens, at least one.
pub open spec fn identifier(value: Seq<char>) -> bool {
    value.len() > 0 && forall|i: int|
        0 <= i < value.len() ==> identifier_char(#[trigger] value[i])
}

/// Whether a character may stand in an identifier.
pub open spec fn identifier_char(c: char) -> bool {
    ('a' <= c && c <= 'z') || ('0' <= c && c <= '9') || c == '-'
}

/// Whether a text is an identifier.
pub fn valid_identifier(value: &str) -> (r: bool)
    ensures
        r == identifier(value@),
{
    let chars = chars_of(value);
    let mut i: usize = 0;
    while i < chars.len()
        invariant
            i <= chars@.len(),
            chars@ == value@,
            forall|j: int| 0 <= j < i ==> identifier_char(#[trigger] value@[j]),
        decreases chars@.len() - i,
    {
        let c = chars[i];
        if !(('a' <= c && c <= 'z') || ('0' <= c && c <= '9') || c == '-') {
            assert(!identifier_char(value@[i as int]));
            return false;
        }
        i += 1;
    }
    chars.len() > 0
}

/// The error of a provider type that is no identifier.
pub open spec fn bad_type(provider_type: Seq<char>) -> Seq<char> {
    "invalid provider type `"@ + provider_type + "`; use a lowercase identifier without dots"@
}

/// The error of an instance name that is no identifier.
pub open spec fn bad_instance(provider_type: Seq<char>, instance: Seq<char>) -> Seq<char> {
    "invalid provider instance `"@ + provider_type + "."@ + instance
        + "`; use lowercase letters, digits, and hyphens"@
}

/// What is wrong with the names of instances: the first that is no identifier.
pub open spec fn instance_fault(
    provider_type: Seq<char>,
    instances: Seq<(Seq<char>, ProviderView)>,
) -> Option<Seq<char>>
    decreases instances.len(),
{
    if instances.len() == 0 {
        None
    } else if !identifier(instances[0].0) {
        Some(bad_instance(provider_type, instances[0].0))
    } else {
        instance_fault(provider_type, instances.drop_first())
    }
}

/// What is wrong with the names of providers and instances: the first that is no identifier.
pub open spec fn name_fault(providers: Seq<(Seq<char>, ProviderView)>) -> Option<Seq<char>>
    decreases providers.len(),
{
    if providers.len() == 0 {
        None
    } else if !identifier(providers[0].0) {
        Some(bad_type(providers[0].0))
    } else {
        match instance_fault(providers[0].0, providers[0].1.instances) {
            Some(fault) => Some(fault),
            None => name_fault(providers.drop_first()),
        }
    }
}

/// A check's outcome over views.
pub open spec fn fault_result(fault: Option<Seq<char>>) -> Result<(), Seq<char>> {
    match fault {
        Some(fault) => Err(fault),
        None => Ok(()),
    }
}

fn check_instances(provider_type: &str, instances: &Vec<(String, ProviderConfig)>) -> (r: Result<
    (),
    ConfigError,
>)
    ensures
        view_unit(r) == fault_result(instance_fault(provider_type@, config_views(instances@))),
{
    let ghost all = config_views(instances@);
    let mut i: usize = 0;
    assert(all.skip(0) =~= all);
    while i < instances.len()
        invariant
            i <= instances@.len(),
            all == config_views(instances@),
            instance_fault(provider_type@, all) == instance_fault(
                provider_type@,
                all.skip(i as int),
            ),
        decreases instances@.len() - i,
    {
        assert(all.skip(i as int)[0] == all[i as int]);
        if !valid_identifier(instances[i].0.as_str()) {
            let mut message = prefixed("invalid provider instance `", provider_type);
            message.append(".");
            message.append(instances[i].0.as_str());
            message.append("`; use lowercase letters, digits, and hyphens");
            return Err(ConfigError { message });
        }
        assert(all.skip(i as int).drop_first() =~= all.skip(i + 1));
        i += 1;
    }
    Ok(())
}

impl IrisConfig {
    /// Checks that the names of providers and instances are identifiers.
    pub fn validate_provider_identifiers(&self) -> (r: Result<(), ConfigError>)
        ensures
            view_unit(r) == fault_result(name_fault(config_views(self.providers@))),
    {
        let ghost all = config_views(self.providers@);
        let mut i: usize = 0;
        assert(all.skip(0) =~= all);
        while i < self.providers.len()
            invariant
                i <= self.providers@.len(),
                all == config_views(self.providers@),
                name_fault(all) == name_fault(all.skip(i as int)),
            decreases self.providers@.len() - i,
        {
            let name = self.providers[i].0.as_str();
            proof {
                assert(all.skip(i as int)[0] == all[i as int]);
                assert(all.skip(i as int).drop_first() =~= all.skip(i + 1));
                lemma_instances(self.providers@[i as int].1);
            }
            if !valid_identifier(name) {
                let mut message = prefixed("invalid provider type `", name);
                message.append("`; use a lowercase identifier without dots");
                return Err(ConfigError { message });
            }
            if let Err(error) = check_instances(name, &self.providers[i].1.instances) {
                return Err(error);
            }
            i += 1;
        }
        Ok(())
    }
}

/// What credentials stand for: every one, or why the first that cannot be read cannot.
pub open spec fn resolved_credentials(
    credentials: Seq<(Seq<char>, SecretView)>,
    variables: Seq<(Seq<char>, EnvValue)>,
) -> Result<Seq<(Seq<char>, Seq<char>)>, Seq<char>>
    decreases credentials.len(),
{
    if credentials.len() == 0 {
        Ok(seq![])
    } else {
        match resolved_credentials(credentials.drop_last(), variables) {
            Err(error) => Err(error),
            Ok(front) => match secret_text(credentials.last().1, variables) {
                Err(error) => Err(error),
                Ok(text) => Ok(front.push((credentials.last().0, text))),
            },
        }
    }
}

/// An error among the first credentials is the error of them all.
proof fn lemma_resolved_prefix(
    credentials: Seq<(Seq<char>, SecretView)>,
    variables: Seq<(Seq<char>, EnvValue)>,
    n: int,
)
    requires
        0 <= n <= credentials.len(),
    ensures
        resolved_credentials(credentials.take(n), variables) is Err ==> resolved_credentials(
            credentials,
            variables,
        ) == resolved_credentials(credentials.take(n), variables),
    decreases credentials.len() - n,
{
    if n < credentials.len() {
        lemma_resolved_prefix(credentials, variables, n + 1);
        assert(credentials.take(n + 1).drop_last() =~= credentials.take(n));
    } else {
        assert(credentials.take(n) =~= credentials);
    }
}

/// The result of resolving credentials, over views.
pub open spec fn texts_result(r: Result<StringMap<String>, ConfigError>) -> Result<
    Seq<(Seq<char>, Seq<char>)>,
    Seq<char>,
> {
    match r {
        Ok(texts) => Ok(texts.texts()),
        Err(error) => Err(error@),
    }
}

/// Resolves credentials: every one, or the first error.
pub fn resolve_credentials(credentials: &StringMap<SecretValue>, environment: &Environment) -> (r:
    Result<StringMap<String>, ConfigError>)
    ensures
        texts_result(r) == resolved_credentials(
            value_views(credentials.pairs()),
            environment.variables.pairs(),
        ),
{
    let ghost all = value_views(credentials.pairs());
    let ghost variables = environment.variables.pairs();
    let n: usize = credentials.len();
    let mut out: StringMap<String> = StringMap::new();
    let mut i: usize = 0;
    assert(all.take(0) =~= seq![]);
    assert(out.texts() =~= seq![]);
    while i < n
        invariant
            i <= n,
            n == all.len(),
            all == value_views(credentials.pairs()),
            ordered(credentials.pairs()),
            variables == environment.variables.pairs(),
            resolved_credentials(all.take(i as int), variables) == Ok::<
                Seq<(Seq<char>, Seq<char>)>,
                Seq<char>,
            >(out.texts()),
            out.texts().len() == i,
            forall|j: int| 0 <= j < i ==> (#[trigger] out.texts()[j]).0 == all[j].0,
        decreases n - i,
    {
        let ghost before = out.texts();
        let ghost key = all[i as int].0;
        proof {
            let next = all.take(i + 1);
            assert(next.drop_last() =~= all.take(i as int));
            assert(next.last() == all[i as int]);
            lemma_resolved_prefix(all, variables, i + 1);
        }
        match credentials.value_at(i).resolve(environment) {
            Err(error) => {
                return Err(error);
            },
            Ok(text) => {
                let ghost added = text@;
                proof {
                    assert forall|j: int| 0 <= j < before.len() implies text_before(
                        (#[trigger] before[j]).0,
                        key,
                    ) by {
                        assert(credentials.pairs()[j].0 == all[j].0);
                        assert(text_before(credentials.pairs()[j].0, credentials.pairs()[i as int].0));
                    }
                    lemma_put_last(before, key, added);
                }
                out.insert_text(credentials.key_at(i).to_owned(), text);
                assert(out.texts() == before.push((key, added)));
            },
        }
        i += 1;
    }
    assert(all.take(all.len() as int) =~= all);
    Ok(out)
}

/// The secrets that can be read and are not blank.
pub open spec fn usable_secrets(
    secrets: Seq<(Seq<char>, SecretView)>,
    variables: Seq<(Seq<char>, EnvValue)>,
) -> Seq<(Seq<char>, Seq<char>)>
    decreases secrets.len(),
{
    if secrets.len() == 0 {
        seq![]
    } else {
        let front = usable_secrets(secrets.drop_last(), variables);
        match secret_text(secrets.last().1, variables) {
            Ok(text) => if blank(text) {
                front
            } else {
                front.push((secrets.last().0, text))
            },
            Err(_) => front,
        }
    }
}

impl IrisConfig {
    /// Resolve configured batch-ingest secrets. Missing environment-backed values remain absent so
    /// transports can report an unavailable service.
    pub fn resolved_ingest_secrets(&self, environment: &Environment) -> (r: StringMap<String>)
        ensures
            r.texts() == usable_secrets(
                value_views(self.ingest.secrets.pairs()),
                environment.variables.pairs(),
            ),
    {
        let secrets = &self.ingest.secrets;
        let ghost all = value_views(secrets.pairs());
        let ghost variables = environment.variables.pairs();
        let n: usize = secrets.len();
        let mut out: StringMap<String> = StringMap::new();
        let mut i: usize = 0;
        assert(all.take(0) =~= seq![]);
        assert(out.texts() =~= seq![]);
        while i < n
            invariant
                i <= n,
                n == all.len(),
                all == value_views(secrets.pairs()),
                ordered(secrets.pairs()),
                variables == environment.variables.pairs(),
                out.texts() == usable_secrets(all.take(i as int), variables),
                forall|j: int, k: int|
                    0 <= j < out.texts().len() && i <= k < n ==> text_before(
                        (#[trigger] out.texts()[j]).0,
                        (#[trigger] all[k]).0,
                    ),
            decreases n - i,
        {
            let ghost before = out.texts();
            let ghost key = all[i as int].0;
            proof {
                let next = all.take(i + 1);
                assert(next.drop_last() =~= all.take(i as int));
                assert(next.last() == all[i as int]);
            }
            if let Ok(text) = secrets.value_at(i).resolve(environment) {
                if !is_blank(text.as_str()) {
                    let ghost added = text@;
                    proof {
                        lemma_put_last(before, key, added);
                    }
                    out.insert_text(secrets.key_at(i).to_owned(), text);
                    proof {
                        assert(out.texts() == before.push((key, added)));
                        assert forall|j: int, k: int|
                            0 <= j < out.texts().len() && i + 1 <= k < n implies text_before(
                            (#[trigger] out.texts()[j]).0,
                            (#[trigger] all[k]).0,
                        ) by {
                            if j < before.len() {
                                assert(out.texts()[j] == before[j]);
                            } else {
                                assert(text_before(
                                    secrets.pairs()[i as int].0,
                                    secrets.pairs()[k].0,
                                ));
                            }
                        }
                    }
                }
            }
            i += 1;
        }
        assert(all.take(all.len() as int) =~= all);
        out
    }
}

/// An identifier is made of lower case ASCII letters, digits and hyphens, at least one.
pub proof fn law_identifiers_are_lower_case(value: Seq<char>)
    ensures
        identifier(value) <==> value.len() > 0 && forall|i: int|
            0 <= i < value.len() ==> {
                let n = #[trigger] value[i] as int;
                0x61 <= n <= 0x7a || 0x30 <= n <= 0x39 || n == 0x2d
            },
{
    if identifier(value) {
        assert forall|i: int| 0 <= i < value.len() implies {
            let n = #[trigger] value[i] as int;
            0x61 <= n <= 0x7a || 0x30 <= n <= 0x39 || n == 0x2d
        } by {
            assert(identifier_char(value[i]));
        }
    }
}

/// A configuration has no fault in its names where every provider and every instance is named by an
/// identifier.
pub proof fn law_every_name_is_an_identifier(providers: Seq<(Seq<char>, ProviderView)>)
    ensures
        name_fault(providers) is None <==> forall|i: int|
            0 <= i < providers.len() ==> identifier((#[trigger] providers[i]).0) && forall|k: int|
                0 <= k < providers[i].1.instances.len() ==> identifier(
                    (#[trigger] providers[i].1.instances[k]).0,
                ),
    decreases providers.len(),
{
    if providers.len() > 0 {
        let rest = providers.drop_first();
        law_every_name_is_an_identifier(rest);
        lemma_instance_names(providers[0].0, providers[0].1.instances);
        if name_fault(providers) is None {
            assert forall|i: int| 0 <= i < providers.len() implies identifier(
                (#[trigger] providers[i]).0,
            ) && forall|k: int|
                0 <= k < providers[i].1.instances.len() ==> identifier(
                    (#[trigger] providers[i].1.instances[k]).0,
                ) by {
                if i > 0 {
                    assert(rest[i - 1] == providers[i]);
                }
            }
        }
        if forall|i: int|
            0 <= i < providers.len() ==> identifier((#[trigger] providers[i]).0) && forall|k: int|
                0 <= k < providers[i].1.instances.len() ==> identifier(
                    (#[trigger] providers[i].1.instances[k]).0,
                ) {
            assert(identifier(providers[0].0));
            assert forall|i: int| 0 <= i < rest.len() implies identifier((#[trigger] rest[i]).0)
                && forall|k: int|
                0 <= k < rest[i].1.instances.len() ==> identifier(
                    (#[trigger] rest[i].1.instances[k]).0,
                ) by {
                assert(providers[i + 1] == rest[i]);
            }
        }
    }
}

proof fn lemma_instance_names(provider_type: Seq<char>, instances: Seq<(Seq<char>, ProviderView)>)
    ensures
        instance_fault(provider_type, instances) is None <==> forall|k: int|
            0 <= k < instances.len() ==> identifier((#[trigger] instances[k]).0),
    decreases instances.len(),
{
    if instances.len() > 0 {
        let rest = instances.drop_first();
        lemma_instance_names(provider_type, rest);
        if instance_fault(provider_type, instances) is None {
            assert forall|k: int| 0 <= k < instances.len() implies identifier(
                (#[trigger] instances[k]).0,
            ) by {
                if k > 0 {
                    assert(rest[k - 1] == instances[k]);
                }
            }
        }
        if forall|k: int| 0 <= k < instances.len() ==> identifier((#[trigger] instances[k]).0) {
            assert(identifier(instances[0].0));
            assert forall|k: int| 0 <= k < rest.len() implies identifier((#[trigger] rest[k]).0) by {
                assert(instances[k + 1] == rest[k]);
            }
        }
    }
}

/// A secret is what stands in the file, or what the variable holds that it names.
pub proof fn law_secrets_are_inline_or_in_the_environment(
    value: Seq<char>,
    env: Seq<char>,
    variables: Seq<(Seq<char>, EnvValue)>,
)
    ensures
        secret_text(SecretView::Inline(value), variables) == Ok::<Seq<char>, Seq<char>>(value),
        find(variables, env) matches Some(EnvValue::Text(text)) ==> secret_text(
            SecretView::FromEnv { env },
            variables,
        ) == Ok::<Seq<char>, Seq<char>>(text@),
        find(variables, env) is None ==> secret_text(SecretView::FromEnv { env }, variables)
            == Err::<Seq<char>, Seq<char>>(
            "failed to read environment variable "@ + env + ": "@
                + "environment variable not found"@,
        ),
        find(variables, env) matches Some(EnvValue::NotUnicode(_)) ==> secret_text(
            SecretView::FromEnv { env },
            variables,
        ) is Err,
{
}

/// Credentials are resolved where each of them is, and each under its own name.
pub proof fn law_every_credential_is_resolved(
    credentials: Seq<(Seq<char>, SecretView)>,
    variables: Seq<(Seq<char>, EnvValue)>,
)
    ensures
        resolved_credentials(credentials, variables) is Ok <==> forall|i: int|
            0 <= i < credentials.len() ==> secret_text(
                (#[trigger] credentials[i]).1,
                variables,
            ) is Ok,
        resolved_credentials(credentials, variables) matches Ok(texts) ==> texts.len()
            == credentials.len() && forall|i: int|
            0 <= i < texts.len() ==> (#[trigger] texts[i]).0 == credentials[i].0 && secret_text(
                credentials[i].1,
                variables,
            ) == Ok::<Seq<char>, Seq<char>>(texts[i].1),
    decreases credentials.len(),
{
    if credentials.len() > 0 {
        let front = credentials.drop_last();
        law_every_credential_is_resolved(front, variables);
        assert forall|i: int| 0 <= i < front.len() implies front[i] == #[trigger] credentials[i] by {}
        if forall|i: int|
            0 <= i < credentials.len() ==> secret_text(
                (#[trigger] credentials[i]).1,
                variables,
            ) is Ok {
            assert forall|i: int| 0 <= i < front.len() implies secret_text(
                (#[trigger] front[i]).1,
                variables,
            ) is Ok by {
                assert(credentials[i] == front[i]);
            }
            assert(credentials[credentials.len() - 1] == credentials.last());
        }
        if resolved_credentials(credentials, variables) is Ok {
            assert forall|i: int| 0 <= i < credentials.len() implies secret_text(
                (#[trigger] credentials[i]).1,
                variables,
            ) is Ok by {
                if i < front.len() {
                    assert(front[i] == credentials[i]);
                }
            }
        }
    }
}

/// The secrets to be kept from view are those that are resolved to something that is not blank.
pub proof fn law_usable_secrets_are_not_blank(
    secrets: Seq<(Seq<char>, SecretView)>,
    variables: Seq<(Seq<char>, EnvValue)>,
)
    ensures
        usable_secrets(secrets, variables) == secrets.filter(
            |secret: (Seq<char>, SecretView)|
                secret_text(secret.1, variables) matches Ok(text) && !blank(text),
        ).map_values(
            |secret: (Seq<char>, SecretView)| (secret.0, secret_text(secret.1, variables)->Ok_0),
        ),
    decreases secrets.len(),
{
    reveal(Seq::filter);
    let ok = |secret: (Seq<char>, SecretView)|
        secret_text(secret.1, variables) matches Ok(text) && !blank(text);
    let f = |secret: (Seq<char>, SecretView)|
        (secret.0, secret_text(secret.1, variables)->Ok_0);
    if secrets.len() > 0 {
        law_usable_secrets_are_not_blank(secrets.drop_last(), variables);
        if ok(secrets.last()) {
            assert(secrets.filter(ok).map_values(f) =~= secrets.drop_last().filter(ok).map_values(
                f,
            ).push(f(secrets.last())));
        }
    } else {
        assert(secrets.filter(ok).map_values(f) =~= seq![]);
    }
}

} // verus!
