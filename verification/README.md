# httproxy

An HTTP proxy that carries connections through shaped, optionally encrypted
HTTP tunnels. A local proxy (the client) takes CONNECT and absolute-form
requests; a server behind any web front end connects to the targets.

The library under `src/` holds the decisions, formats and state machines of both
sides. It is written in Verus: functions state what they return or change, or,
where chance or the clock decides, what holds whatever comes out, and the
statements are proved. What it has from other crates (ciphers, key agreement,
base64, URL and DNS codecs, concurrent maps) goes through small wrappers whose
contracts are believed; each names the function that it calls.

- `shaper` – frames, padding, traffic shaping
- `crypto` – sealing, key derivation, keys
- `hello`, `session` – handshake messages and session cookies
- `server` – routing, authorization, tunnels, uploads, registries
- `client` – local connections, handshakes, upload and download loops
- `dns` – queries, answers, caching, connection races
- `bypass`, `ip` – rules for targets that need no tunnel
- `config`, `log`, `error`, `clock` – settings and small things
- `wire`, `text`, `chars`, `decimal`, `base64url`, `buffer` – building blocks

`tests/` exercises the library from outside. `app/` is the program around it:
sockets, HTTP, files, timers and the command line.
