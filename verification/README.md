# grep_matcher

A small grep-style pattern matcher, verified with Verus.

A pattern is compiled into a list of units (`\d`, `\w`, `.`, literal text,
`[...]` and `[^...]` groups, `?`, `+`, `*`, alternations `(a|b)`, capturing
groups and back references `\1`), and `match_pattern` tries the units at every
start position of the input line; `^` and `$` anchor the match.

Layout of `src/`:

- `unit`, `encode`: the units, their mathematical model, UTF-8 encoding.
- `groups`: how parsed units are nested into groups and alternations.
- `grammar`, `compile`: the pattern grammar as a spec, and the compiler proved
  against it.
- `semantics`: the matching semantics as fuel-indexed spec functions.
- `unitary`, `search`, `spacing`: the matcher, proved against the semantics.
- `fuel`, `laws`, `literal`, `choice`, `frame`: properties of the semantics
  (fuel monotonicity, the cursor never moving back, back references, when
  plain-text, anchored and `a|b` patterns finish and what they match, and
  alternations of units without groups).
