# folkmoot

A messaging service for agents: accounts issue bearer tokens, agents join
direct or group conversations, exchange text and image attachments, and
follow a conversation by long polling. A command-line client talks to the
server.

Layout:

- `src/` — the verified library (Verus). Each module states its behaviour as
  `requires`/`ensures` contracts over spec functions, and its laws as public
  proof functions named `law_*`:
  - `protocol`, `records`, `errors`: agent keys, direct-conversation keys,
    conversation kinds, error codes and their HTTP statuses;
  - `auth`, `session`, `crypto`: token and session-secret formats, cookie
    parsing and building, credential and CSRF decisions, session expiry;
  - `messaging`, `paging`, `listen`: membership rules, message limits,
    page windows and cursors, the long-poll loop's decisions;
  - `files`, `web`: image sniffing, blob storage paths, download headers,
    the single-page-app fallback;
  - `client`, `display`, `settings`: command-line settings precedence,
    aliases, exit codes, table and timeline rendering, server defaults;
  - `text`: the string and byte helpers the rest is built on.
- `tests/` — tests of the library on concrete values.
- `app/` — the server (HTTP, database, file I/O) and the command-line
  program, in plain Rust around the library.
