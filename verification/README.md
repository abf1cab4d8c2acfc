# ai_bid

Deterministic rule matching for tender documents, verified with Verus.

- `src/` is the library. `engine` runs rules on documents, `validator` checks rules, `metrics`
  reads dates and amounts, `generate_rule` judges drafts of rules, and the rest holds what the
  service around them decides: uploads, sections, redaction, reviews, talks, lookups and records.
- `src/outside.rs` is all that is believed without proof: calls into `regex`, `serde_json` and the
  standard library.
- `app/` holds the commands, the HTTP service, and what needs floating-point numbers.
- `tests/` runs the library on concrete values.

Numbers of a document stay exact in the library: a day number, or decimal digits with the factor
of their unit. `RuleEngine::comparisons` lists the comparisons that the rules ask for, `app/`
measures in `f64` how their sides stand to each other, and `RuleEngine::run` takes the measures.
