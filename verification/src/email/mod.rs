//! Email provider backed by IMAP for reads and SMTP for sends.

pub mod envelope;
pub mod fetch;
pub mod parse;
pub mod reply;

use vstd::prelude::*;
use crate::decimal::{parse_unsigned, parsed_unsigned, IntError};
use crate::error::{config_error, prefixed, IrisError, IrisErrorView};
use crate::ids::Uuid;
use crate::maps::{find, StringMap};
use crate::provider::{ProviderCapability, ProviderMetadata};
use crate::text::{blank, is_blank, lowercase, to_lowercase, view_result, view_unit};

verus! {

/// The namespace of the UUIDs of email threads, messages and contacts.
pub const UUID_NAMESPACE: u128 = 0x6e6c_4e12_1a7d_4a3c_8b53_8914_42f3_0002;

/// How many messages one IMAP request fetches where nothing else is configured.
pub const DEFAULT_PAGE_SIZE: u32 = 50;

/// How many messages are fetched at most where nothing else is configured.
pub const DEFAULT_MAX_MESSAGES: u32 = 500;

/// The UUID of a name.
pub open spec fn email_id(name: Seq<char>) -> Uuid {
    Uuid::named(UUID_NAMESPACE, name)
}

/// Static metadata about the provider.
pub fn metadata() -> (r: ProviderMetadata)
    ensures
        r.id@ == "email"@,
        r.name@ == "Email"@,
        r.capabilities@ == seq![
            ProviderCapability::ListMessages,
            ProviderCapability::SendMessages,
            ProviderCapability::ListThreads,
            ProviderCapability::ListContacts,
        ],
{
    let capabilities: &'static [ProviderCapability] = &[
        ProviderCapability::ListMessages,
        ProviderCapability::SendMessages,
        ProviderCapability::ListThreads,
        ProviderCapability::ListContacts,
    ];
    assert(capabilities@ =~= seq![
        ProviderCapability::ListMessages,
        ProviderCapability::SendMessages,
        ProviderCapability::ListThreads,
        ProviderCapability::ListContacts,
    ]);
    ProviderMetadata { id: "email", name: "Email", capabilities }
}

/// Connection settings for [`EmailProvider`].
#[derive(Debug, PartialEq, Eq)]
pub struct EmailProviderConfig {
    /// IMAP server hostname.
    pub imap_host: String,
    /// IMAP TLS port.
    pub imap_port: u16,
    /// SMTP server hostname.
    pub smtp_host: String,
    /// SMTP STARTTLS port.
    pub smtp_port: u16,
    /// Login username.
    pub username: String,
    /// Login password or app password.
    pub password: String,
    /// IMAP mailbox to read.
    pub mailbox: String,
    /// Sender address used for SMTP.
    pub from: String,
    /// Number of messages to fetch per IMAP request (default 50).
    pub page_size: u32,
    /// Maximum number of messages to fetch in total, even when no limit is requested by the
    /// caller (default 500). Protects against loading an entire mailbox in one operation.
    pub max_messages: u32,
}

/// The mathematical value of connection settings.
#[verifier::ext_equal]
pub struct EmailSettings {
    pub imap_host: Seq<char>,
    pub imap_port: int,
    pub smtp_host: Seq<char>,
    pub smtp_port: int,
    pub username: Seq<char>,
    pub password: Seq<char>,
    pub mailbox: Seq<char>,
    pub from: Seq<char>,
    pub page_size: int,
    pub max_messages: int,
}

impl View for EmailProviderConfig {
    type V = EmailSettings;

    open spec fn view(&self) -> EmailSettings {
        EmailSettings {
            imap_host: self.imap_host@,
            imap_port: self.imap_port as int,
            smtp_host: self.smtp_host@,
            smtp_port: self.smtp_port as int,
            username: self.username@,
            password: self.password@,
            mailbox: self.mailbox@,
            from: self.from@,
            page_size: self.page_size as int,
            max_messages: self.max_messages as int,
        }
    }
}

impl Default for EmailProviderConfig {
    fn default() -> (r: EmailProviderConfig)
        ensures
            r@ == (EmailSettings {
                imap_host: seq![],
                imap_port: 993,
                smtp_host: seq![],
                smtp_port: 587,
                username: seq![],
                password: seq![],
                mailbox: "INBOX"@,
                from: seq![],
                page_size: DEFAULT_PAGE_SIZE as int,
                max_messages: DEFAULT_MAX_MESSAGES as int,
            }),
    {
        let r = EmailProviderConfig {
            imap_host: String::new(),
            imap_port: 993,
            smtp_host: String::new(),
            smtp_port: 587,
            username: String::new(),
            password: String::new(),
            mailbox: "INBOX".to_owned(),
            from: String::new(),
            page_size: DEFAULT_PAGE_SIZE,
            max_messages: DEFAULT_MAX_MESSAGES,
        };
        assert(r@.imap_host =~= seq![]);
        assert(r@.smtp_host =~= seq![]);
        assert(r@.username =~= seq![]);
        assert(r@.password =~= seq![]);
        assert(r@.from =~= seq![]);
        r
    }
}

/// The error of a setting that is missing.
pub open spec fn missing(name: Seq<char>) -> IrisErrorView {
    IrisErrorView::Config("email "@ + name + " is required"@)
}

impl EmailSettings {
    /// What is wrong with the settings: the first text that is blank, or a count of zero.
    pub open spec fn checked(self) -> Result<(), IrisErrorView> {
        if blank(self.imap_host) {
            Err(missing("imap_host"@))
        } else if blank(self.smtp_host) {
            Err(missing("smtp_host"@))
        } else if blank(self.username) {
            Err(missing("username"@))
        } else if blank(self.password) {
            Err(missing("password"@))
        } else if blank(self.mailbox) {
            Err(missing("mailbox"@))
        } else if blank(self.from) {
            Err(missing("from"@))
        } else if self.page_size == 0 {
            Err(IrisErrorView::Config("email page_size must be at least 1"@))
        } else if self.max_messages == 0 {
            Err(IrisErrorView::Config("email max_messages must be at least 1"@))
        } else {
            Ok(())
        }
    }
}

fn require_text(name: &str, value: &str) -> (r: Result<(), IrisError>)
    ensures
        r is Err <==> blank(value@),
        r matches Err(error) ==> error@ == missing(name@),
{
    if is_blank(value) {
        let mut message = prefixed("email ", name);
        message.append(" is required");
        Err(IrisError::Config(message))
    } else {
        Ok(())
    }
}

impl EmailProviderConfig {
    /// Checks that no text is blank and no count is zero.
    pub fn validate(&self) -> (r: Result<(), IrisError>)
        ensures
            view_unit(r) == self@.checked(),
    {
        require_text("imap_host", self.imap_host.as_str())?;
        require_text("smtp_host", self.smtp_host.as_str())?;
        require_text("username", self.username.as_str())?;
        require_text("password", self.password.as_str())?;
        require_text("mailbox", self.mailbox.as_str())?;
        require_text("from", self.from.as_str())?;
        if self.page_size == 0 {
            return Err(config_error("email page_size must be at least 1"));
        }
        if self.max_messages == 0 {
            return Err(config_error("email max_messages must be at least 1"));
        }
        Ok(())
    }
}

/// Email provider using IMAP for reads and SMTP for outbound messages.
#[derive(Debug, PartialEq, Eq)]
pub struct EmailProvider {
    pub imap_host: String,
    pub imap_port: u16,
    pub smtp_host: String,
    pub smtp_port: u16,
    pub username: String,
    pub password: String,
    pub mailbox: String,
    pub from: String,
    pub page_size: u32,
    pub max_messages: u32,
}

impl View for EmailProvider {
    type V = EmailSettings;

    open spec fn view(&self) -> EmailSettings {
        EmailSettings {
            imap_host: self.imap_host@,
            imap_port: self.imap_port as int,
            smtp_host: self.smtp_host@,
            smtp_port: self.smtp_port as int,
            username: self.username@,
            password: self.password@,
            mailbox: self.mailbox@,
            from: self.from@,
            page_size: self.page_size as int,
            max_messages: self.max_messages as int,
        }
    }
}

/// The settings where they can be used, or what is wrong with them.
pub open spec fn usable(settings: EmailSettings) -> Result<EmailSettings, IrisErrorView> {
    match settings.checked() {
        Ok(()) => Ok(settings),
        Err(error) => Err(error),
    }
}

/// A credential that has to be there.
pub open spec fn required_value(
    credentials: Seq<(Seq<char>, Seq<char>)>,
    key: Seq<char>,
) -> Result<Seq<char>, IrisErrorView> {
    match find(credentials, key) {
        Some(value) => if blank(value) {
            Err(IrisErrorView::Config("email credentials."@ + key + " is required"@))
        } else {
            Ok(value)
        },
        None => Err(IrisErrorView::Config("email credentials."@ + key + " is required"@)),
    }
}

/// A number up to `max` among the credentials, or the default where it is not given.
pub open spec fn number_value(
    credentials: Seq<(Seq<char>, Seq<char>)>,
    key: Seq<char>,
    default: int,
    max: int,
) -> Result<int, IrisErrorView> {
    match find(credentials, key) {
        Some(value) => match parsed_unsigned(value, max) {
            Ok(n) => Ok(n),
            Err(error) => Err(
                IrisErrorView::Config(
                    "email credentials."@ + key + " is invalid: "@ + error.message(),
                ),
            ),
        },
        None => Ok(default),
    }
}

/// A credential, or another text where it is not given.
pub open spec fn value_or(
    credentials: Seq<(Seq<char>, Seq<char>)>,
    key: Seq<char>,
    other: Seq<char>,
) -> Seq<char> {
    match find(credentials, key) {
        Some(value) => value,
        None => other,
    }
}

/// The settings that credentials name, or the first thing that is wrong with them.
pub open spec fn settings_from(credentials: Seq<(Seq<char>, Seq<char>)>) -> Result<
    EmailSettings,
    IrisErrorView,
> {
    match required_value(credentials, "imap_host"@) {
        Err(error) => Err(error),
        Ok(imap_host) => match number_value(credentials, "imap_port"@, 993, u16::MAX as int) {
            Err(error) => Err(error),
            Ok(imap_port) => match required_value(credentials, "smtp_host"@) {
                Err(error) => Err(error),
                Ok(smtp_host) => match number_value(
                    credentials,
                    "smtp_port"@,
                    587,
                    u16::MAX as int,
                ) {
                    Err(error) => Err(error),
                    Ok(smtp_port) => account_from(
                        credentials,
                        imap_host,
                        imap_port,
                        smtp_host,
                        smtp_port,
                    ),
                },
            },
        },
    }
}

/// The settings that credentials name besides the servers.
pub open spec fn account_from(
    credentials: Seq<(Seq<char>, Seq<char>)>,
    imap_host: Seq<char>,
    imap_port: int,
    smtp_host: Seq<char>,
    smtp_port: int,
) -> Result<EmailSettings, IrisErrorView> {
    match required_value(credentials, "username"@) {
        Err(error) => Err(error),
        Ok(username) => match required_value(credentials, "password"@) {
            Err(error) => Err(error),
            Ok(password) => match number_value(
                credentials,
                "page_size"@,
                DEFAULT_PAGE_SIZE as int,
                u32::MAX as int,
            ) {
                Err(error) => Err(error),
                Ok(page_size) => match number_value(
                    credentials,
                    "max_messages"@,
                    DEFAULT_MAX_MESSAGES as int,
                    u32::MAX as int,
                ) {
                    Err(error) => Err(error),
                    Ok(max_messages) => usable(
                        EmailSettings {
                            imap_host,
                            imap_port,
                            smtp_host,
                            smtp_port,
                            username,
                            password,
                            mailbox: value_or(credentials, "mailbox"@, "INBOX"@),
                            from: value_or(credentials, "from"@, username),
                            page_size,
                            max_messages,
                        },
                    ),
                },
            },
        },
    }
}

fn required(credentials: &StringMap<String>, key: &str) -> (r: Result<String, IrisError>)
    ensures
        view_result(r) == required_value(credentials.texts(), key@),
{
    if let Some(value) = credentials.get_text(key) {
        if !is_blank(value.as_str()) {
            return Ok(value.clone());
        }
    }
    let mut message = prefixed("email credentials.", key);
    message.append(" is required");
    Err(IrisError::Config(message))
}

/// A number's result over views.
pub open spec fn number_result(r: Result<u64, IrisError>) -> Result<int, IrisErrorView> {
    match r {
        Ok(n) => Ok(n as int),
        Err(error) => Err(error@),
    }
}

fn optional_number(credentials: &StringMap<String>, key: &str, default: u64, max: u64) -> (r: Result<
    u64,
    IrisError,
>)
    requires
        default <= max,
    ensures
        number_result(r) == number_value(credentials.texts(), key@, default as int, max as int),
        r matches Ok(n) ==> n <= max,
{
    match credentials.get_text(key) {
        Some(value) => match parse_unsigned(value.as_str(), max) {
            Ok(n) => Ok(n),
            Err(error) => {
                let mut message = prefixed("email credentials.", key);
                message.append(" is invalid: ");
                message.append(error.describe().as_str());
                Err(IrisError::Config(message))
            },
        },
        None => Ok(default),
    }
}

fn optional_port(credentials: &StringMap<String>, key: &str, default: u16) -> (r: Result<
    u16,
    IrisError,
>)
    ensures
        number_value(credentials.texts(), key@, default as int, u16::MAX as int) == (match r {
            Ok(n) => Ok(n as int),
            Err(error) => Err(error@),
        }),
{
    match optional_number(credentials, key, default as u64, u16::MAX as u64) {
        Ok(n) => Ok(n as u16),
        Err(error) => Err(error),
    }
}

fn optional_u32(credentials: &StringMap<String>, key: &str, default: u32) -> (r: Result<
    u32,
    IrisError,
>)
    ensures
        number_value(credentials.texts(), key@, default as int, u32::MAX as int) == (match r {
            Ok(n) => Ok(n as int),
            Err(error) => Err(error@),
        }),
{
    match optional_number(credentials, key, default as u64, u32::MAX as u64) {
        Ok(n) => Ok(n as u32),
        Err(error) => Err(error),
    }
}

/// The mailbox that a text names: its email address, or what is wrong with the text.
pub uninterp spec fn mailbox_address(text: Seq<char>) -> Result<Seq<char>, Seq<char>>;

/// The parse of `lettre::message::Mailbox`: the address, or the error's text. Both depend on the
/// text alone.
#[verifier::external_body]
pub(crate) fn parse_mailbox(text: &str) -> (r: Result<String, String>)
    ensures
        view_result(r) == mailbox_address(text@),
{
    match text.parse::<lettre::message::Mailbox>() {
        Ok(mailbox) => Ok(mailbox.email.to_string()),
        Err(error) => Err(error.to_string()),
    }
}

/// The address that the owner sends from in lower case, the whole text where it is no mailbox.
pub open spec fn own_address(from: Seq<char>) -> Seq<char> {
    match mailbox_address(from) {
        Ok(address) => lowercase(address),
        Err(_) => lowercase(from),
    }
}

impl EmailProvider {
    /// Build an email provider from explicit connection settings.
    pub fn new(config: EmailProviderConfig) -> (r: Result<EmailProvider, IrisError>)
        ensures
            view_result(r) == usable(config@),
            r matches Ok(provider) ==> provider.page_size > 0 && provider.max_messages > 0,
    {
        config.validate()?;
        Ok(
            EmailProvider {
                imap_host: config.imap_host,
                imap_port: config.imap_port,
                smtp_host: config.smtp_host,
                smtp_port: config.smtp_port,
                username: config.username,
                password: config.password,
                mailbox: config.mailbox,
                from: config.from,
                page_size: config.page_size,
                max_messages: config.max_messages,
            },
        )
    }

    /// Build from resolved provider credentials.
    pub fn from_credentials(credentials: &StringMap<String>) -> (r: Result<EmailProvider, IrisError>)
        ensures
            view_result(r) == settings_from(credentials.texts()),
            r matches Ok(provider) ==> provider.page_size > 0 && provider.max_messages > 0,
    {
        let imap_host = required(credentials, "imap_host")?;
        let imap_port: u16 = optional_port(credentials, "imap_port", 993)?;
        let smtp_host = required(credentials, "smtp_host")?;
        let smtp_port: u16 = optional_port(credentials, "smtp_port", 587)?;
        let username = required(credentials, "username")?;
        let password = required(credentials, "password")?;
        let mailbox = match credentials.get_text("mailbox") {
            Some(mailbox) => mailbox.clone(),
            None => "INBOX".to_owned(),
        };
        let from = match credentials.get_text("from") {
            Some(from) => from.clone(),
            None => username.clone(),
        };
        let page_size: u32 = optional_u32(credentials, "page_size", DEFAULT_PAGE_SIZE)?;
        let max_messages: u32 = optional_u32(credentials, "max_messages", DEFAULT_MAX_MESSAGES)?;
        EmailProvider::new(
            EmailProviderConfig {
                imap_host,
                imap_port,
                smtp_host,
                smtp_port,
                username,
                password,
                mailbox,
                from,
                page_size,
                max_messages,
            },
        )
    }

    /// The address that the owner sends from, in lower case.
    pub fn configured_from_address(&self) -> (r: String)
        ensures
            r@ == own_address(self.from@),
    {
        match parse_mailbox(self.from.as_str()) {
            Ok(address) => to_lowercase(address.as_str()),
            Err(_) => to_lowercase(self.from.as_str()),
        }
    }
}

/// Settings are usable where every text is there and both numbers are positive.
pub proof fn law_usable_settings_are_complete(settings: EmailSettings)
    ensures
        usable(settings) is Ok <==> {
            &&& !blank(settings.imap_host) && !blank(settings.smtp_host)
            &&& !blank(settings.username) && !blank(settings.password)
            &&& !blank(settings.mailbox) && !blank(settings.from)
            &&& settings.page_size != 0
            &&& settings.max_messages != 0
        },
        usable(settings) matches Ok(kept) ==> kept == settings,
{
}

/// Whether a number is what a credential says, or its default where the credential is not given.
pub open spec fn is_number(
    credentials: Seq<(Seq<char>, Seq<char>)>,
    key: Seq<char>,
    default: int,
    max: int,
    n: int,
) -> bool {
    match find(credentials, key) {
        Some(value) => parsed_unsigned(value, max) == Ok::<int, IntError>(n),
        None => n == default,
    }
}

/// Whether a credential that has to be given is given, and what it says.
pub open spec fn is_given(
    credentials: Seq<(Seq<char>, Seq<char>)>,
    key: Seq<char>,
    value: Seq<char>,
) -> bool {
    find(credentials, key) == Some(value) && !blank(value)
}

/// The settings say what the credentials say: hosts, user name and password are needed; the ports
/// are 993 and 587, the mailbox is `INBOX` and the sender is the user where nothing else is given.
pub proof fn law_settings_say_what_the_credentials_say(
    credentials: Seq<(Seq<char>, Seq<char>)>,
    key: Seq<char>,
)
    ensures
        settings_from(credentials) matches Ok(settings) ==> {
            &&& is_given(credentials, "imap_host"@, settings.imap_host)
            &&& is_given(credentials, "smtp_host"@, settings.smtp_host)
            &&& is_given(credentials, "username"@, settings.username)
            &&& is_given(credentials, "password"@, settings.password)
            &&& is_number(credentials, "imap_port"@, 993, 65535, settings.imap_port)
            &&& is_number(credentials, "smtp_port"@, 587, 65535, settings.smtp_port)
            &&& is_number(credentials, "page_size"@, 50, 0xffff_ffff, settings.page_size)
            &&& is_number(credentials, "max_messages"@, 500, 0xffff_ffff, settings.max_messages)
            &&& find(credentials, "mailbox"@) matches Some(mailbox) ==> settings.mailbox == mailbox
            &&& find(credentials, "mailbox"@) is None ==> settings.mailbox == "INBOX"@
            &&& find(credentials, "from"@) matches Some(from) ==> settings.from == from
            &&& find(credentials, "from"@) is None ==> settings.from == settings.username
            &&& settings.page_size != 0 && settings.max_messages != 0
            &&& !blank(settings.mailbox) && !blank(settings.from)
        },
        (key == "imap_host"@ || key == "smtp_host"@ || key == "username"@ || key == "password"@) && (
        find(credentials, key) matches Some(value) ==> blank(value)) ==> settings_from(
            credentials,
        ) is Err,
{
}

/// The owner is known by the address of the mailbox they send from, in lower case.
pub proof fn law_the_owner_is_known_by_their_address(from: Seq<char>)
    ensures
        mailbox_address(from) matches Ok(address) ==> own_address(from) == lowercase(address),
        mailbox_address(from) is Err ==> own_address(from) == lowercase(from),
{
}

/// A credential that is no number in its range is refused by a message that names it and tells why;
/// one that is such a number, or is not given, is not refused.
pub proof fn law_faulty_numbers_are_told(
    credentials: Seq<(Seq<char>, Seq<char>)>,
    key: Seq<char>,
    default: int,
    max: int,
)
    ensures
        find(credentials, key) matches Some(value) ==> (parsed_unsigned(value, max) matches Err(
            error,
        ) ==> number_value(credentials, key, default, max) == Err::<int, IrisErrorView>(
            IrisErrorView::Config(
                "email credentials."@ + key + " is invalid: "@ + error.message(),
            ),
        )),
        find(credentials, key) matches Some(value) ==> (parsed_unsigned(value, max) matches Ok(n)
            ==> number_value(credentials, key, default, max) == Ok::<int, IrisErrorView>(n)),
        find(credentials, key) is None ==> number_value(credentials, key, default, max) == Ok::<
            int,
            IrisErrorView,
        >(default),
{
}

} // verus!
