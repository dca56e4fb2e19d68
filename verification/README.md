# Iris

Messages of Telegram, SMS, email and other sources in one shape: `Message`, `Thread`, `Contact`.

`src/` is the library. All of it is verified with Verus: the contracts say what each function
returns, and the proof functions named `law_…` state what holds of several of them together.
What only an outside crate can compute (UUIDs, RFC 3339 and RFC 2822 dates, SHA-256, base64, JSON
string escapes, MIME parsing) is called through small trusted wrappers, each with a doc comment
that says what is believed of it.

| Modules | What they hold |
|---------|----------------|
| `model`, `provider`, `outbound`, `wire`, `storage`, `error` | the domain model and outbound messages |
| `audit`, `ingest`, `realtime` | the hash-linked audit trail, replay-safe ingestion, realtime audit metadata |
| `telegram`, `email`, `sms`, `mock`, `herdr` | the providers |
| `config` | configuration, environment overrides, the registry of instances |
| `mcp`, `operations`, `serve`, `watch`, `codegen` | the surfaces |
| `text`, `order`, `maps`, `ids`, `time`, `decimal`, `json`, `rendering`, `digest`, `listing`, `contacts` | what these rest on |

Work that alternates with the network, a disk or a clock is a machine: a step takes an event, and
answers with the next action (`telegram::poller`, `telegram::send`, `telegram::download`,
`email::fetch`, `watch`). `app/` is the program: it performs the actions and hands back the events.
