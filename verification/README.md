# tc_service

The rules of the TinyCongress service, written in Verus and proved against
their contracts.

## Layout

- `src/` — the verified library.
  - `trust/` — the trust graph: vertex connectivity by max-flow on a
    vertex-split graph (`max_flow`), the flow theory behind it (`flow_theory`),
    the proof that the connectivity counts vertex-disjoint routes (`paths`),
    path diversity of every user reachable from an anchor (`engine`), the trust
    service's guards (`service`), the worker's decisions (`worker`), room
    constraints (`constraints`) and the trust endpoints' rules (`http`).
  - `rooms/` — rooms, polls, ranking rounds, research suggestions.
  - `reputation/` — endorsements and the ID.me verification flow (signed state,
    redirect URLs, one identity per account).
  - `seed/`, `sim/` — demo seeding and the simulation worker: prompts, mock
    data, deterministic accounts and bookkeeping.
  - `codec.rs`, `ids.rs` — calls into `base64`, `urlencoding`, `hmac`/`sha2`,
    std's UTF-8 check and `uuid`, each behind a small trusted wrapper.
  - `text.rs` — string helpers with exact specifications.
- `tests/` — tests of the library.
- `app/` — what the library leaves to its caller: floating-point weights and
  distances, JSON shapes, file storage, the OAuth state's JSON, and the service
  and worker loops driven by the library's decisions.
