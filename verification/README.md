# rmap

rmap.rs lets a GitHub user search repositories, pick up to four of them
and map their source files. This crate is its server: the decisions and
data handling are a Verus library, proved against their contracts, and a
thin web application runs them.

## Layout

- `src/` — the verified library.
  - `state.rs`, `buffer.rs`: the per-user buffer of four repository slots
    (registering a tree, evicting the oldest, storing links and scan notes,
    the dashboard's scan list), with the law that the four slot numbers are
    always shared out exactly once.
  - `search.rs`, `link.rs`: search-result pages and the GitHub `Link`
    header.
  - `dashboard.rs`: sign-in, the user's repositories and interests.
  - `token.rs`, `oauth.rs`: reading the OAuth reply and sealing the access
    token for the session cookie, with its round-trip law.
  - `text.rs`, `tree.rs`, `util.rs`, `requests.rs`, `model.rs`,
    `error.rs`: strings, file kinds, parsing, GitHub addresses, the data
    types and errors.
- `tests/` — tests of the library on concrete values.
- `app/` — the web application (axum, sessions, templates, GitHub and
  DynamoDB calls), which hands plain values to the library.
