# planner_backend

A planner API server (accounts, session tokens, dated plans with photos) whose
request logic is a Verus-verified library.

## Layout

- `src/` — the verified library.
  - `store.rs` — the accounts and plans kept, with their well-formedness
    (records named in their tables, unique keys, unique e-mail addresses), the
    lookups and updates, and the ordered listing.
  - `routes/user.rs`, `routes/plan.rs`, `routes/photo.rs` — what each request
    decides and answers: registration, login, `me`; plan listing, creation,
    lookup, update, deletion; photo upload naming and serving.
  - `auth.rs`, `claims.rs` — HS256 session tokens valid for seven days, with the
    claims text `{"sub":…,"exp":…}` written and read back exactly (claims of any
    other layout are read with `serde_json`).
  - `password.rs`, `ids.rs`, `clock.rs` — bcrypt, random UUIDs and the wall clock,
    each behind a small trusted wrapper whose contract is stated in its doc comment.
  - `laws.rs` — properties across requests, proved: a registered account logs in,
    a token's subject finds its account, a shown plan id finds the plan, what an
    update or deletion leaves, and that one account never disturbs another's plans.
  - `text.rs`, `models.rs`, `error.rs` — text helpers, the records and bodies,
    and the error answer `{ "error": … }` with its status.
- `app/` — the HTTP server around the library: routes, JSON and multipart
  bodies, file storage of photos and of the store's snapshot, Swagger UI, CORS
  and logging.
- `tests/` — tests of the library on concrete values.

## Running

The server listens on `0.0.0.0:8080`, serves the API under `/api`, Swagger UI at
`/swagger-ui` and the OpenAPI document at `/api-docs/openapi.json`. Photos are kept
in `uploads/`. Accounts and plans are kept in `data/planner.json`, read at start and
rewritten after every change.
