//! Who may reach the HTTP server.

use vstd::prelude::*;
use crate::error::{prefixed, IrisError, IrisErrorView};
use crate::json::{json_object, json_text, member, member_views, Json, JsonView};
use crate::text::{chars_of, str_eq, view_unit};

verus! {

/// Environment variable that holds the token of the server.
pub const API_TOKEN_ENV: &'static str = "IRIS_API_TOKEN";

/// The address that the server binds where none is given.
pub const DEFAULT_ADDR: &'static str = "127.0.0.1:9876";

/// A host that a server is bound to. The bits of an address are those of its octets, the first
/// octet highest.
#[derive(Clone, Copy, Debug, PartialEq, Eq, Structural)]
pub enum BindHost {
    V4(u32),
    V6(u128),
    /// A host that is not written in numbers.
    Named,
}

impl BindHost {
    /// Whether the address is one of this machine.
    pub open spec fn is_loopback(self) -> bool {
        match self {
            BindHost::V4(bits) => 0x7f00_0000 <= bits <= 0x7fff_ffff,
            BindHost::V6(bits) => bits == 1,
            BindHost::Named => false,
        }
    }

    /// Whether the address is private: `10.0.0.0/8`, `172.16.0.0/12` or `192.168.0.0/16`.
    pub open spec fn is_private(self) -> bool {
        match self {
            BindHost::V4(bits) => {
                ||| 0x0a00_0000 <= bits <= 0x0aff_ffff
                ||| 0xac10_0000 <= bits <= 0xac1f_ffff
                ||| 0xc0a8_0000 <= bits <= 0xc0a8_ffff
            },
            _ => false,
        }
    }

    /// Whether the address stands behind carrier-grade translation: `100.64.0.0/10`.
    pub open spec fn is_shared(self) -> bool {
        match self {
            BindHost::V4(bits) => 0x6440_0000 <= bits <= 0x647f_ffff,
            _ => false,
        }
    }

    /// Whether the address is unique-local: `fc00::/7`.
    pub open spec fn is_unique_local(self) -> bool {
        match self {
            BindHost::V6(bits) => 0xfc00_0000_0000_0000_0000_0000_0000_0000u128 <= bits
                <= 0xfdff_ffff_ffff_ffff_ffff_ffff_ffff_ffffu128,
            _ => false,
        }
    }

    /// Whether the address may be served without a token.
    pub open spec fn is_sheltered(self) -> bool {
        self.is_loopback() || self.is_private() || self.is_shared() || self.is_unique_local()
    }

    /// Whether the address may be served without a token.
    pub fn sheltered(&self) -> (r: bool)
        ensures
            r == self.is_sheltered(),
    {
        match *self {
            BindHost::V4(bits) => (0x7f00_0000 <= bits && bits <= 0x7fff_ffff) || (0x0a00_0000
                <= bits && bits <= 0x0aff_ffff) || (0xac10_0000 <= bits && bits <= 0xac1f_ffff) || (
            0xc0a8_0000 <= bits && bits <= 0xc0a8_ffff) || (0x6440_0000 <= bits && bits
                <= 0x647f_ffff),
            BindHost::V6(bits) => bits == 1 || (0xfc00_0000_0000_0000_0000_0000_0000_0000u128
                <= bits && bits <= 0xfdff_ffff_ffff_ffff_ffff_ffff_ffff_ffffu128),
            BindHost::Named => false,
        }
    }
}

/// Admits an address to bind: without a token only loopback, private, shared and unique-local
/// addresses, written in numbers.
pub fn check_bind(address: &str, host: BindHost, has_token: bool) -> (r: Result<(), String>)
    ensures
        view_unit(r) == (if has_token || host.is_sheltered() {
            Ok::<(), Seq<char>>(())
        } else {
            Err("refusing to serve without IRIS_API_TOKEN on "@ + address@)
        }),
{
    if has_token || host.sheltered() {
        Ok(())
    } else {
        Err(prefixed("refusing to serve without IRIS_API_TOKEN on ", address))
    }
}

/// Whether two texts are equal, found without an early exit.
fn same_throughout(a: &str, b: &str) -> (r: bool)
    ensures
        r == (a@ == b@),
{
    let x = chars_of(a);
    let y = chars_of(b);
    let mut same = x.len() == y.len();
    let mut i: usize = 0;
    while i < x.len()
        invariant
            i <= x@.len(),
            same == (x@.len() == y@.len() && forall|j: int| 0 <= j < i ==> x@[j] == y@[j]),
        decreases x@.len() - i,
    {
        let ghost so_far = same;
        let equal = i < y.len() && x[i] == y[i];
        same = same && equal;
        proof {
            if so_far && equal {
                assert forall|j: int| 0 <= j < i + 1 implies x@[j] == y@[j] by {}
            }
        }
        i += 1;
    }
    proof {
        if same {
            assert(x@ =~= y@);
        }
    }
    same
}

/// Whether a request is admitted: `GET /health` always, and the others where there is no token or
/// they bear it.
pub open spec fn admitted(
    token: Option<Seq<char>>,
    method: Seq<char>,
    path: Seq<char>,
    authorization: Option<Seq<char>>,
) -> bool {
    ||| token is None
    ||| (method == "GET"@ && path == "/health"@)
    ||| authorization == Some("Bearer "@ + token->0)
}

/// Whether a request is admitted: `GET /health` always, and the others where there is no token or
/// they bear it.
pub fn admits(token: Option<&str>, method: &str, path: &str, authorization: Option<&str>) -> (r: bool)
    ensures
        r == admitted(
            match token {
                Some(token) => Some(token@),
                None => None,
            },
            method@,
            path@,
            match authorization {
                Some(authorization) => Some(authorization@),
                None => None,
            },
        ),
{
    let token = match token {
        Some(token) => token,
        None => {
            return true;
        },
    };
    if str_eq(method, "GET") && str_eq(path, "/health") {
        return true;
    }
    match authorization {
        Some(authorization) => same_throughout(
            authorization,
            prefixed("Bearer ", token).as_str(),
        ),
        None => false,
    }
}

/// The code under which an event stream reports an error.
pub open spec fn error_code_of(error: IrisErrorView) -> Seq<char> {
    match error {
        IrisErrorView::SlowConsumer => "slow_consumer"@,
        IrisErrorView::Provider { message, .. } => if message
            == "telegram getUpdates conflict (HTTP 409)"@ {
            "telegram_conflict"@
        } else {
            "provider_failed"@
        },
        _ => "provider_failed"@,
    }
}

/// The data of an error frame.
pub open spec fn stream_error_view(error: IrisErrorView) -> JsonView {
    JsonView::Object(
        seq![
            ("code"@, JsonView::Text(error_code_of(error))),
            ("message"@, JsonView::Text(error.message())),
        ],
    )
}

/// The data of the frame with which an event stream reports an error.
pub fn stream_error_json(error: &IrisError) -> (r: Json)
    ensures
        r@ == stream_error_view(error@),
{
    let code = match error {
        IrisError::SlowConsumer => "slow_consumer",
        IrisError::Provider { message, .. } => if str_eq(
            message.as_str(),
            "telegram getUpdates conflict (HTTP 409)",
        ) {
            "telegram_conflict"
        } else {
            "provider_failed"
        },
        _ => "provider_failed",
    };
    let mut members: Vec<(String, Json)> = Vec::new();
    members.push(member("code", json_text(code)));
    members.push(member("message", json_text(error.describe().as_str())));
    assert(member_views(members@) =~= stream_error_view(error@)->Object_0);
    json_object(members)
}

/// Without a token neither a wildcard address nor a name is served.
pub proof fn law_wildcards_need_a_token()
    ensures
        !BindHost::V4(0).is_sheltered(),
        !BindHost::V6(0).is_sheltered(),
        !BindHost::Named.is_sheltered(),
{
}

/// With a token, every request but `GET /health` has to bear it.
pub proof fn law_every_request_bears_the_token(
    token: Seq<char>,
    method: Seq<char>,
    path: Seq<char>,
    authorization: Option<Seq<char>>,
)
    requires
        path != "/health"@ || method != "GET"@,
    ensures
        admitted(Some(token), method, path, authorization) <==> authorization == Some(
            "Bearer "@ + token,
        ),
{
}

/// The sheltered addresses are those of the machine itself and of the networks set aside for
/// private use, for carriers and for unique local use.
pub proof fn law_sheltered_addresses_are_set_aside(a: u8, b: u8, c: u8, d: u8, high: u8, low: u128)
    requires
        low < 0x0100_0000_0000_0000_0000_0000_0000_0000u128,
    ensures
        BindHost::V4((a * 0x100_0000 + b * 0x1_0000 + c * 0x100 + d) as u32).is_sheltered() <==> {
            ||| a == 127
            ||| a == 10
            ||| a == 172 && 16 <= b <= 31
            ||| a == 192 && b == 168
            ||| a == 100 && 64 <= b <= 127
        },
        BindHost::V6(
            (high * 0x0100_0000_0000_0000_0000_0000_0000_0000 + low) as u128,
        ).is_sheltered() <==> {
            ||| high == 0xfc
            ||| high == 0xfd
            ||| high == 0 && low == 1
        },
        !BindHost::Named.is_sheltered(),
{
}

/// Where no token is set every request is let in, and where one is set the health check still is.
pub proof fn law_health_is_open(
    token: Option<Seq<char>>,
    method: Seq<char>,
    path: Seq<char>,
    authorization: Option<Seq<char>>,
)
    ensures
        admitted(None, method, path, authorization),
        admitted(token, "GET"@, "/health"@, authorization),
{
}

/// A stream tells its listener how it failed: by falling behind, by another poller, or otherwise.
pub proof fn law_stream_errors_tell_why(error: IrisErrorView)
    ensures
        ({
            let view = stream_error_view(error)->Object_0;
            &&& stream_error_view(error) is Object && view.len() == 2
            &&& view[0].0 == "code"@
            &&& error is SlowConsumer ==> view[0].1 == JsonView::Text("slow_consumer"@)
            &&& error matches IrisErrorView::Provider { message, .. } ==> message
                == "telegram getUpdates conflict (HTTP 409)"@ ==> view[0].1 == JsonView::Text(
                "telegram_conflict"@,
            )
            &&& !(error is SlowConsumer) && !(error matches IrisErrorView::Provider { message, .. }
                && message == "telegram getUpdates conflict (HTTP 409)"@) ==> view[0].1
                == JsonView::Text("provider_failed"@)
            &&& view[1] == ("message"@, JsonView::Text(error.message()))
        }),
{
}

} // verus!
