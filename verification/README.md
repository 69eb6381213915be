# rustpress

A small WordPress-compatible core written in Verus: endpoint classification,
gateway settings, auth cookies and nonces, password-hash checks, sessions,
options, the object cache, cron, hooks, admin-ajax/admin-post and REST
dispatch, front-end routes, and the blog's posts. The functions in `src/`
carry `requires`/`ensures` contracts that Verus proves, except the few
wrappers around outside calls (marked `#[verifier::external_body]`), whose
contracts are trusted as what the outside crate or std documents; the `lemma_*`
proof functions state the laws that span several calls (a read after a
write, a signed cookie verifying, a redirect target needing no redirect,
and so on).

Layout:

- `src/` — the verified library, one module per subsystem. `text.rs` holds
  the character-level model (trimming, splitting, decimals) that the other
  modules build on. The trusted wrappers sit in `crypto.rs` (digests, MACs,
  base64, bcrypt, URL-decoding), `clock.rs` (system time and durations),
  `cache.rs` (reading and making JSON values), `site.rs` (Markdown) and
  `text.rs` (`String::push`).
- `tests/` — scenarios run against the compiled library.
- `app/` — the blog server: command line, reading `site.toml` and the
  Markdown posts, HTTP routes and HTML pages, environment variables, and
  the hook dispatcher that runs callbacks in the order the library plans.
