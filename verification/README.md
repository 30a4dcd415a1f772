# rust_practice

Verified core of four small Rust programs, written with Verus.

- `src/words.rs`, `src/group.rs`, `src/substitution.rs`: word lists such as
  `"(dog cat rabbit)"`, the check that two lists describe a permutation of one
  set of distinct words, and the substitution of every word of a text by its
  image in one scan (longest word first, nothing replaced twice).
- `src/digest.rs`, `src/session.rs`: salted SHA-256 digests and the cookie
  decisions of a stateless OpenID Connect session (CSRF state, nonce, check
  digits of the ID token, refresh and logout).
- `src/id_token.rs`: reading and verifying ID tokens with `openidconnect`
  (the login start, the callback's nonce check, the API's authentication
  and the renewal of an expired token).
- `src/pg.rs`: `~` expansion of certificate paths and the PostgreSQL pool
  manager built from a connection string, over TLS exactly when a
  connector is given.
- `src/dataset.rs`: the integer parts of a Poisson regression example.
- `app/`: the programs themselves (file, network and database I/O, the web
  server, floating-point statistics), selected by their name on the command
  line.
