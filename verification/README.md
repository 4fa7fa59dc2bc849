# tunl

A VMess proxy for edge workers. A client opens a web socket at `/IP:PORT` (or `/IP-PORT`), proves by a
sealed header that it knows the configured UUID, and is relayed to the target it asks for, or to the
proxy in the path where the target cannot be reached. `/link` gives a link that clients import.

- `src/` is the library, verified with Verus: `common` (digests, key derivation, AES-GCM, addresses),
  `config`, `proxy::header` and `proxy::vmess` (the header and the session), `tunnel` (proxy addresses)
  and `link` (proxy list and links).
- `app/` is the worker around it: routes, environment, sockets and the DNS resolver.
- `tests/` runs the library on concrete values.
