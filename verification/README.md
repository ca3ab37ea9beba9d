# xalen

A verified core for an astrology toolkit, written in Verus.

- `src/dosha.rs`: Vedic dosha checks (Mangal, Kaal Sarpa, Pitra), sign
  lordship and the 9th-lord house, combustion orbs.
- `src/aspects.rs`: aspect types and their catalogues, name parsing, and the
  sign-based (out-of-sign) part of aspect classification.
- `src/patterns.rs`: pattern detection (Grand Trine, T-Square, Yod,
  Stellium, Grand Cross, Mystic Rectangle, Kite) over a grid of pairwise
  aspect facts between bodies.
- `src/named_patterns.rs`: the same patterns over a list of aspects between
  named bodies.

Every public function states what it returns over spec functions; the proof
functions state the laws the detectors keep.

`app/` holds what stays outside the verified core: the floating-point
geometry (angular distances, orbs, strengths, applying/separating, transit
search, composite and Davison midpoints, combustion by longitude),
serializable copies of the core's types, and the Python bindings.
