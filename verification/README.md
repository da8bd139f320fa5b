# ferralloy

The verified core of the Ferralloy fleet plane and of its on-device
certificate gate, written in Verus.

- `src/` — the library. Its contracts state what each operation of the fleet
  plane does to the channel and device tables (publish, canary staging,
  promotion, abort, device reports), which release a device resolves to and
  which pack it is served, how request inputs are read (channel names, canary
  percentages), and how a certificate's header is checked and each refinement
  level of its re-proof is concluded. `fleet.rs` and `certificate.rs` also
  hold the laws that relate these operations.
- `tests/` — tests of the library on concrete values.
- `app/` — the HTTP server (axum/tokio), file storage, JSON forms of the
  types, and the floating-point Taylor/CROWN bound computation of the
  certificate re-proof, all calling into the library for their decisions.

## Notes

- The channel and device tables are a `NameMap` (`src/registry.rs`): a
  vector of entries kept in ascending UTF-8 byte order of their names, each
  name once. It stands where an ordered map of `String` keys would; Verus
  proves next to nothing of `String`-keyed std maps, while of this one it
  proves that every operation keeps the order and uniqueness, and what the
  map holds after each insert and removal. Walking it lists names in the
  order an ordered map would.
- The certificate registry recognises four systems:
  `linear-double-integrator`, `saturated-double-integrator`,
  `saturated-hybrid-wall-contact` and `reversed-van-der-pol`. Only the
  dynamics of `saturated-hybrid-wall-contact` were available to carry over,
  so `app/certificate.rs` re-proves certificates for that system alone and
  answers that no dynamics are available for the other three. The other
  systems' parameters, and the Jacobian-range and dynamics-Hessian terms that
  the nonlinear Van der Pol needs, have yet to be supplied.
- A certificate whose energy head is empty (no hidden units) is the pure
  quadratic `V(e) = eᵀPe − v₀` and is accepted for checking.
- An upload's `canary` value is either an optional `+` and decimal digits
  (clamped to 100) or it is refused: a request that asks for a canary never
  replaces the channel's current release.
