# ws2tcp-router

Forwards WebSocket connections to TCP and UDP upstreams, behind HTTP Basic authentication and
access tokens where they are configured.

The library in `src/` holds every decision of the router and is verified with Verus: each function
states what it returns in its contract, and the `law_*` proof functions state what holds across
functions. `app/` is the program around it: sockets, files, TLS, the command line and logging. It
reads what happened, asks the library what is to be done, and does that.

| module                     | what it decides                                                       |
|----------------------------|-----------------------------------------------------------------------|
| `args`                     | options from the command line and the configuration file              |
| `listener`, `tls`          | where to listen, and with which certificate                           |
| `http`, `http_probe`       | request heads, plain requests, responses, and what is replayed        |
| `auth`                     | credentials, their file, and who a request comes from                 |
| `token`, `token_laws`      | access and refresh tokens: issuing, rotation, revocation              |
| `token_api`                | the endpoints under `/auth/`                                          |
| `target`, `proxy`          | upstream targets, routes, and what is relayed in a session            |
| `client_addr`              | trusted proxies and `X-Forwarded-For`                                 |
| `ip`, `ip_laws`            | addresses, read and written                                           |
| `text`, `codec`, `bigendian`, `table`, `clock`, `crypto`, `logging` | what the others are built on |

Operations that read a clock or draw random bytes come in two forms. `login` reads the clock and
draws the token; `login_at` takes both as arguments, and its contract is exact. In
the same way `drawn_token` stands beside `generate_token`, and `drawn_family` beside
`random_family`.

Outside crates are called through wrappers marked `#[verifier::external_body]`, whose contracts are
believed: base64, SHA-256 and HMAC, random bytes, the parsing of request heads, URIs, methods and
header names, PEM files, log filters, and the signing of certificates. The doc comment of each says what it
claims.
