# rpm-spec-analyzer

Lint rules for RPM spec files, written in Verus. Each rule is a type with the
trait `lint::Lint`: its `after` says, as a function of a spec file, which
diagnostics the rule owes, and `visit_spec` is proved to add exactly those.

- `src/ast.rs` — the spec file as the rules read it.
- `src/diagnostic.rs`, `src/lint.rs`, `src/profile.rs` — what rules say and
  what they are set up with.
- `src/text.rs`, `src/names.rs`, `src/source.rs`, `src/shell.rs`,
  `src/packages.rs`, `src/bodies.rs`, `src/walk.rs` — what rules are made of.
- `src/expr.rs`, `src/condition.rs`, `src/dnf.rs`, `src/path_cond.rs` —
  conditions, their normal forms, and what holds where a branch stands.
- `src/calendar.rs`, `src/bcond.rs` — the calls into `time` and `rpm-spec`.
- `src/rules/` — the rules.
- `src/laws.rs`, `src/expr_laws.rs`, `src/path_laws.rs` and the proof functions
  at the end of the rules — what the library promises as a whole: a normal form
  means its condition, a branch reported as dead is never reached, an operand
  reported as redundant can be dropped, and the like.
- `app/` — parsing with `rpm-spec` and turning its tree into the library's.
- `tests/` — the rules on small spec files, and the laws on concrete values.
