# phosk_pages

The page logic of the Phoskonomia web frontend, verified with Verus: what
each page decides (statuses, tones, labels), how it orders and groups its
rows, and the small state machines around its server calls (one write at a
time, what an answer closes, what a refusal keeps).

- `src/` — the verified library, one module per page plus shared helpers
  (`text`, `sorting`, `grouping`, `calls`, `cycle`). Money is in centimes;
  ratios are compared exactly.
- `tests/` — tests on concrete values, one file per module.
- `app/` — the presentation helpers that compute on floating-point values
  (chart scales, rounded ratios), kept out of the verified library.

Rendering (the Dioxus components) and the server calls stay with the web
application; it hands the library plain values and takes plain values back.
