# hawktui

A terminal user-interface toolkit whose rendering core is specified and
proved with [Verus](https://github.com/verus-lang/verus).

## Layout

- `src/` — the verified library.
  - `base/` — geometry (`Rect`, `Position`, `Margin`), colors and styles,
    symbols and cells, styled text, Unicode segmentation and widths, the
    cell `Buffer` (writing strings and lines, hyperlinks, diff and merge) and
    text reflow (character and word wrapping, truncation).
  - `layout.rs` — the constraint solver that splits an area into segments.
  - `animation.rs` — timeline modes and the step decisions of a timeline
    tick.
  - `backend/` — the `Backend` trait, the escape-sequence encoder (`ansi`),
    the crossterm back end (frames encoded into one byte buffer, attributes
    written only when they change) and an in-memory test back end.
  - `terminal.rs` — double-buffered drawing through frames, with a ghost
    log of the calls made on the back end.
  - `event.rs`, `focus.rs`, `overlay.rs`, `theme.rs`, `util/` — events and
    hit-testing, focus rings, overlay stacks and modal boxes, themes, undo
    stacks and fuzzy matching.
  - `ontology/` — the authoring catalog of the toolkit's types and the
    reports built from it, the widget registry's searches, queries and
    renderings (listing, search results, roles, digest) and the UI tree's
    lookups, plus the roles and parameter types agents use.
  - `agent/` — agent sessions (subscriptions, injected events), bounded
    line reading, the transport's admission decisions (rate limit, size)
    and the MCP server's tool selection and catalog answers.
  - `testing.rs` — frame comparison and key names for tests.
- `app/` — the parts that talk to the outside world: the JSON agent protocol
  and its stdin/stdout transport, the MCP server's JSON-RPC framing, the widget registry, the program runner
  with terminal events, floating-point animation and fuzzy-match scores.
- `tests/` — tests of the library.

Contracts are stated over mathematical models (`Seq`, `Map`, spec
functions); laws that relate several operations are public proof functions
named `lemma_*` next to the operations they speak of.
