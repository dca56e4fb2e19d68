//! Identifiers: UUIDs held as 128-bit integers.

use vstd::prelude::*;

verus! {

/// A UUID, as the integer whose big-endian bytes it is made of.
#[derive(Clone, Copy, Debug, PartialEq, Eq, Structural, Hash)]
pub struct Uuid {
    pub value: u128,
}

/// The name-based (version 5) UUID of a name in a namespace.
pub uninterp spec fn uuid_v5(namespace: u128, name: Seq<u8>) -> u128;

/// The UUID that a text stands for, or what is wrong with the text.
pub uninterp spec fn uuid_parsed(text: Seq<char>) -> Result<u128, Seq<char>>;

/// The hyphenated lower-case text of a UUID.
pub uninterp spec fn uuid_text(value: u128) -> Seq<char>;

/// A parse result over views.
pub open spec fn uuid_result(r: Result<Uuid, String>) -> Result<u128, Seq<char>> {
    match r {
        Ok(id) => Ok(id.value),
        Err(message) => Err(message@),
    }
}

/// `uuid::Uuid::new_v5`: hashes the namespace and the name, so the UUID depends on them alone.
#[verifier::external_body]
fn call_new_v5(namespace: u128, name: &[u8]) -> (r: u128)
    ensures
        r == uuid_v5(namespace, name@),
{
    uuid::Uuid::new_v5(&uuid::Uuid::from_u128(namespace), name).as_u128()
}

/// Whether a UUID is marked as a random one: version 4, in the variant of the standard.
pub open spec fn random_id(value: u128) -> bool {
    value / 0x1000_0000_0000_0000_0000 % 16 == 4 && value / 0x4000_0000_0000_0000 % 4 == 2
}

/// `uuid::Uuid::new_v4`: random but for the bits of the version and of the variant.
///
/// It gives up only where the system hands out no random bytes.
#[verifier::external_body]
fn call_new_v4() -> (r: u128)
    ensures
        random_id(r),
{
    uuid::Uuid::new_v4().as_u128()
}

/// `uuid::Uuid::parse_str`, the error as its text: both depend on the text alone.
#[verifier::external_body]
fn call_parse_str(text: &str) -> (r: Result<Uuid, String>)
    ensures
        uuid_result(r) == uuid_parsed(text@),
{
    match uuid::Uuid::parse_str(text) {
        Ok(id) => Ok(Uuid { value: id.as_u128() }),
        Err(error) => Err(error.to_string()),
    }
}

/// The `Display` of `uuid::Uuid`: 36 characters, hexadecimal digits and hyphens, which
/// `uuid::Uuid::parse_str` reads back.
#[verifier::external_body]
fn call_to_string(value: u128) -> (r: String)
    ensures
        r@ == uuid_text(value),
        uuid_parsed(r@) is Ok && uuid_parsed(r@)->Ok_0 == value,
        r@.len() == 36,
        !r@.contains('|'),
{
    uuid::Uuid::from_u128(value).to_string()
}

impl Uuid {
    /// The UUID with no bit set.
    pub fn nil() -> (r: Uuid)
        ensures
            r.value == 0,
    {
        Uuid { value: 0 }
    }

    /// A random UUID.
    pub fn fresh() -> (r: Uuid)
        ensures
            random_id(r.value),
    {
        Uuid { value: call_new_v4() }
    }

    /// The UUID that a text stands for.
    pub fn parse(text: &str) -> (r: Result<Uuid, String>)
        ensures
            uuid_result(r) == uuid_parsed(text@),
    {
        call_parse_str(text)
    }

    /// The hyphenated text of the UUID, which parses back to it.
    pub fn text(&self) -> (r: String)
        ensures
            r@ == uuid_text(self.value),
            uuid_parsed(r@) is Ok && uuid_parsed(r@)->Ok_0 == self.value,
            r@.len() == 36,
            !r@.contains('|'),
    {
        call_to_string(self.value)
    }

    /// The UUID of a text in a namespace.
    pub open spec fn named(namespace: u128, name: Seq<char>) -> Uuid {
        Uuid { value: uuid_v5(namespace, vstd::utf8::encode_utf8(name)) }
    }

    /// The name-based UUID of a text in a namespace.
    pub fn of_name(namespace: u128, name: &str) -> (r: Uuid)
        ensures
            r == Uuid::named(namespace, name@),
    {
        Uuid::of_bytes(namespace, name.as_bytes())
    }

    /// The name-based UUID of some bytes in a namespace.
    pub fn of_bytes(namespace: u128, name: &[u8]) -> (r: Uuid)
        ensures
            r.value == uuid_v5(namespace, name@),
    {
        Uuid { value: call_new_v5(namespace, name) }
    }
}

} // verus!
