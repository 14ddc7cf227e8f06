# Design rule checking for printed circuit boards

A verified library that checks a board against the rules a fabricator
publishes and the constraints the design states about itself, and reports
every violation in one canonical order.

- `src/board.rs` — the board as the rules read it: parts and their pads,
  traces, vias, zones, per-net constraints, the declared stackup, nets and
  differential pairs, and what each copper pour fills to.
- `src/presets.rs` — a fab's published numbers and the rules derived from them.
- `src/rules/` — one module per rule. A rule the library checks has a
  specification of exactly what it reports, in what order, with what
  message; a few modules hold only a rule's identifier, and say why.
  `openings.rs`, `contacts.rs`, `clearance.rs` and `copper_pairs.rs` hold
  the shared geometry of webs, contacts, copper distances and the pairs of
  copper the clearance rule measures.
- `src/checker.rs` — the checker's fixed sequence of rules.
- `src/report.rs` — the canonical report order and the naming of what each
  violation is about.
- `src/net_rules.rs` — the per-net rules a router routes on.
- `src/geometry.rs`, `src/text.rs` — exact integer geometry (distances
  rounded from exact square roots) and number formatting.
- `app/` — timing a run, and what is measured in floating point: where
  along the copper a clearance gap lies, the angle a trace makes with a
  fold, and the numbers of the design's own claims that are not lengths.
  The library reads each side of a claim, refuses what it cannot read with
  the reason, weighs lengths itself and reports every claim that did not
  hold.

Lengths are whole nanometres throughout.
