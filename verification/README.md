# trojan_rs

The rules of a small proxy server, verified with Verus, and the program around them.

- `src/` is the library. It holds what the server decides and computes: the wire formats of
  Trojan, VLESS, Mux.Cool, sing-box multiplexing and TLS ClientHellos, REALITY authentication and
  certificates, the fallback site over HTTP/1 and HTTP/2, WebSocket tunnels and their early data,
  configuration rules, and traffic metering. Decoders take the bytes that have come in and say how
  many more they need; state machines take an event and give the next step.
- `app/` is the program: sockets, TLS, timers, tasks and the configuration file.
- `tests/` runs the library on concrete values.

## Reading the contracts

Each module starts with the mathematical model of its values (`..View` types and `spec` functions)
and states what its functions return over this model. Decoders are stated as `Progress`: the bytes
that are missing, a value with its length, or the reason why there can be none. Public `proof`
functions named `lemma_..` state what holds of several functions together, such as that reading
gives back what was written, or that a reader never asks for bytes behind a request.

What outside crates compute enters through a few trusted declarations, each with a comment that
names the outside function and says what is believed of it: `bytes::Bytes` (`buffer.rs`), base64
(`codec.rs`), HTTP heads and dates (`protocol/http_head.rs`), URIs
(`protocol/websocket/connector.rs`), X25519 (`protocol/reality/crypto.rs`), UUIDs
(`protocol/vless/acceptor.rs`), and UTF-8 decoding in the standard library (`text.rs`).
Hashes, ciphers and TLS itself are computed by the program.

## Configuration

A server is described by a TOML file with `mode = "server"`, a `[tls]` table, either `[trojan]` or
`[vless]`, and optionally `[websocket]` and `[fallback]`:

```toml
mode = "server"

[tls]
addr = "0.0.0.0:443"
sni = "example.com"
cert = "cert.pem"
key = "key.pem"

[vless]
users = ["d342d11e-d424-4583-b36e-524ab1f0afa4"]

[websocket]
path = "/vless"

[fallback]
page = "index.html"
```
